//! The pipeline driver: a command line is resolved into commands, and the commands
//! are run in order against a store while a selection of items is handed from one
//! to the next.
//!
//! Nothing is printed or written here. What a run wants shown or stored is kept as
//! a list of events for the caller to act on.

use vstd::prelude::*;
use crate::base::{
    decremented, empty_item, incremented, with_maximum, with_name, with_progress, with_rate,
    with_status, ItemView, Status,
};
use crate::extra::{first_of, resolve, rest_after, Command, ErrorStatus, ExecCmd, ParamType};
use crate::parser::{tokenize, SplitFormat, Splitter};
use crate::pattern::BadPattern;
use crate::store::{
    byte_len, format_line, item_views, marked, name_hits, narrowed, param_hits, removed, replaced,
    serialized, taken, wider, AnimeBase,
};

verus! {

/// What an event tells the caller.
#[derive(Debug, Clone, Copy, PartialEq, Eq, Structural)]
pub enum Notice {
    /// An item was added; the text is its listing line.
    Appended,
    /// An item was removed; the text is its listing line.
    Deleted,
    /// An item of the full listing; the text is its listing line.
    Listed,
    /// A search selected an item; the text is its listing line.
    Found,
    /// A filter kept an item; the text is its listing line.
    Filtered,
    /// An item is selected at the end of a run that changed a field; the text is its
    /// listing line.
    Updated,
    /// The list is to be stored; the text is what to store.
    Saved,
    /// A token was no command; the text is the token.
    Rejected(ErrorStatus),
    /// A status command named no status, and was passed over; the text is the token.
    BadStatus,
    /// The list was stored after something had changed; the text is empty.
    ChangesSaved,
    /// The list was stored though nothing had changed; the text is empty.
    NothingToSave,
}

/// Something for the caller to show or to store.
#[derive(Debug, Clone, PartialEq, Eq)]
pub struct Event {
    pub notice: Notice,
    pub text: String,
}

/// An event with its text as a sequence of characters.
#[verifier::ext_equal]
pub struct EventView {
    pub notice: Notice,
    pub text: Seq<char>,
}

impl View for Event {
    type V = EventView;

    open spec fn view(&self) -> EventView {
        EventView { notice: self.notice, text: self.text@ }
    }
}

/// A token of the command line with the command it was resolved into.
#[derive(Debug, Clone, PartialEq, Eq)]
pub struct Planned {
    pub token: String,
    pub command: ExecCmd,
}

impl View for Planned {
    type V = (Seq<char>, Command);

    open spec fn view(&self) -> (Seq<char>, Command) {
        (self.token@, self.command@)
    }
}

/// Why a run stopped early.
#[derive(Debug)]
pub struct Failure {
    /// The position, among the resolved commands, of the search that could not run.
    pub at: usize,
    /// The pattern of that search, and what the compiler said of it.
    pub cause: BadPattern,
}

/// The state of a run as the contracts see it.
#[verifier::ext_equal]
pub struct SessionView {
    /// The items of the store.
    pub items: Seq<ItemView>,
    /// Width of the name column.
    pub name_len: usize,
    /// Width of the number columns.
    pub series_len: usize,
    /// The selection: store positions, in the order they were selected, repeats kept.
    pub selection: Seq<usize>,
    /// The events so far.
    pub events: Seq<EventView>,
    /// Whether a command has changed a field.
    pub updated: bool,
    /// Whether the list was asked to be stored.
    pub saved: bool,
    /// Whether a delete command has run.
    pub deleted: bool,
}

/// The views of a list of events.
pub open spec fn event_views(events: Seq<Event>) -> Seq<EventView> {
    Seq::new(events.len(), |i: int| events[i]@)
}

/// The views of a list of resolved commands.
pub open spec fn plan_views(plan: Seq<Planned>) -> Seq<(Seq<char>, Command)> {
    Seq::new(plan.len(), |i: int| plan[i]@)
}

/// The commands that a list of tokens resolves into, each with its token. A command
/// that takes an argument uses up the token after it.
pub open spec fn resolved(tokens: Seq<Seq<char>>) -> Seq<(Seq<char>, Command)>
    decreases tokens.len(),
{
    if tokens.len() == 0 {
        Seq::empty()
    } else {
        let rest = tokens.drop_first();
        seq![(tokens[0], resolve(tokens[0], first_of(rest)))] + resolved(
            rest_after(tokens[0], rest),
        )
    }
}

/// Whether one of the commands is a filter. Searches then select without a word.
pub open spec fn has_filter(plan: Seq<(Seq<char>, Command)>) -> bool {
    exists|k: int| 0 <= k < plan.len() && (#[trigger] plan[k]).1 is FilterParam
}

/// Whether `cmd` changes a field of the selected items.
pub open spec fn alters(cmd: Command) -> bool {
    match cmd {
        Command::Increment(_) | Command::Decrement(_) | Command::Maximum(_) | Command::Rename(
            _,
        ) | Command::Progress(_) | Command::Rate(_) => true,
        Command::Status(status) => status != Status::Error,
        _ => false,
    }
}

/// `item` after the command `cmd`; a command that changes no field leaves it.
pub open spec fn changed(item: ItemView, cmd: Command) -> ItemView {
    match cmd {
        Command::Increment(n) => incremented(item, n),
        Command::Decrement(n) => decremented(item, n),
        Command::Maximum(counter) => with_maximum(item, counter),
        Command::Rename(name) => with_name(item, name),
        Command::Progress(n) => with_progress(item, n),
        Command::Status(status) => with_status(item, status),
        Command::Rate(n) => with_rate(item, n),
        _ => item,
    }
}

/// `items` after `cmd` has been applied at each position of `selection`, in order.
/// A position that is selected twice is changed twice.
pub open spec fn applied(items: Seq<ItemView>, selection: Seq<usize>, cmd: Command) -> Seq<
    ItemView,
>
    decreases selection.len(),
{
    if selection.len() == 0 {
        items
    } else {
        let before = applied(items, selection.drop_last(), cmd);
        let index = selection.last();
        replaced(before, index, changed(before[index as int], cmd))
    }
}

/// One event of the kind `notice` for the listing line of each of `items`.
pub open spec fn notices(
    notice: Notice,
    items: Seq<ItemView>,
    name_len: usize,
    series_len: usize,
) -> Seq<EventView> {
    Seq::new(
        items.len(),
        |i: int| EventView { notice, text: format_line(items[i], name_len, series_len) },
    )
}

/// The items at the given positions, in the order of the positions.
pub open spec fn picked(items: Seq<ItemView>, positions: Seq<usize>) -> Seq<ItemView> {
    Seq::new(positions.len(), |k: int| items[positions[k] as int])
}

/// The state after a search has found the items at `found`: they join the selection,
/// and each is reported unless the run is `quiet`.
pub open spec fn selected(s: SessionView, found: Seq<usize>, quiet: bool) -> SessionView {
    SessionView {
        selection: s.selection + found,
        events: if quiet {
            s.events
        } else {
            s.events + notices(Notice::Found, picked(s.items, found), s.name_len, s.series_len)
        },
        ..s
    }
}

/// The state after a new item of the given name has been added: it is the last of
/// the store, it is selected, and its listing line is reported.
pub open spec fn appended(s: SessionView, name: Seq<char>) -> SessionView {
    let name_len = wider(s.name_len, byte_len(name));
    let series_len = wider(s.series_len, 1);
    SessionView {
        items: s.items.push(empty_item(name)),
        name_len,
        series_len,
        selection: s.selection.push(s.items.len() as usize),
        events: s.events.push(
            EventView {
                notice: Notice::Appended,
                text: format_line(empty_item(name), name_len, series_len),
            },
        ),
        ..s
    }
}

/// The state after one command. `token` is the token the command was resolved from;
/// `quiet` tells whether searches select without a word.
///
/// A search goes through the whole store and adds to the selection. A filter goes
/// through the selection and keeps what matches. A command that changes a field
/// changes it in every selected item. `Append` selects the item it adds. `Delete`
/// removes the selected items and leaves nothing selected. A token that was no
/// command is reported and changes nothing else, and so is a status command that
/// names no status.
pub open spec fn step(s: SessionView, token: Seq<char>, cmd: Command, quiet: bool) -> SessionView {
    match cmd {
        Command::Append(name) => appended(s, name),
        Command::Delete => SessionView {
            items: removed(s.items, s.selection, s.items.len() as int),
            selection: Seq::empty(),
            events: s.events + notices(
                Notice::Deleted,
                taken(s.items, s.selection, s.items.len() as int),
                s.name_len,
                s.series_len,
            ),
            deleted: true,
            ..s
        },
        Command::Info => SessionView {
            events: s.events + notices(Notice::Listed, s.items, s.name_len, s.series_len),
            ..s
        },
        Command::Find(pattern) => selected(s, marked(name_hits(s.items, pattern)), quiet),
        Command::FindParam(param) => selected(s, marked(param_hits(s.items, param)), quiet),
        Command::FilterParam(param) => {
            let kept = narrowed(s.items, s.selection, param);
            SessionView {
                selection: kept,
                events: s.events + notices(
                    Notice::Filtered,
                    picked(s.items, kept),
                    s.name_len,
                    s.series_len,
                ),
                ..s
            }
        },
        Command::Write => SessionView {
            events: s.events.push(EventView { notice: Notice::Saved, text: serialized(s.items) }),
            saved: true,
            ..s
        },
        Command::Error(kind) => SessionView {
            events: s.events.push(EventView { notice: Notice::Rejected(kind), text: token }),
            ..s
        },
        Command::Status(Status::Error) => SessionView {
            events: s.events.push(EventView { notice: Notice::BadStatus, text: token }),
            ..s
        },
        Command::Increment(_) | Command::Decrement(_) | Command::Maximum(_) | Command::Rename(
            _,
        ) | Command::Progress(_) | Command::Status(_) | Command::Rate(_) => SessionView {
            items: applied(s.items, s.selection, cmd),
            updated: true,
            ..s
        },
    }
}

/// The state after all commands of `plan`, run in order. No command stops the run.
pub open spec fn run_all(s: SessionView, plan: Seq<(Seq<char>, Command)>, quiet: bool) -> SessionView
    decreases plan.len(),
{
    if plan.len() == 0 {
        s
    } else {
        step(run_all(s, plan.drop_last(), quiet), plan.last().0, plan.last().1, quiet)
    }
}

/// The listing lines of the selected items if a command has changed a field, and
/// nothing otherwise.
pub open spec fn update_lines(s: SessionView) -> Seq<EventView> {
    if s.updated {
        notices(Notice::Updated, picked(s.items, s.selection), s.name_len, s.series_len)
    } else {
        Seq::empty()
    }
}

/// What is to be shown when a run is over: the selected items if a command has
/// changed a field, then, if the list was stored, whether anything had changed. A
/// delete command counts as a change.
pub open spec fn closing_lines(s: SessionView) -> Seq<EventView> {
    if s.saved {
        update_lines(s).push(
            EventView {
                notice: if s.updated || s.deleted {
                    Notice::ChangesSaved
                } else {
                    Notice::NothingToSave
                },
                text: Seq::empty(),
            },
        )
    } else {
        update_lines(s)
    }
}

/// Every selected position lies within the store.
pub open spec fn valid(s: SessionView) -> bool {
    within(s.selection, s.items.len())
}

/// Every one of `positions` is below `len`.
pub open spec fn within(positions: Seq<usize>, len: nat) -> bool {
    forall|k: int| 0 <= k < positions.len() ==> (#[trigger] positions[k]) < len
}

/// The state of a run that has not begun: nothing selected, nothing to report.
pub open spec fn fresh(items: Seq<ItemView>, name_len: usize, series_len: usize) -> SessionView {
    SessionView {
        items,
        name_len,
        series_len,
        selection: Seq::empty(),
        events: Seq::empty(),
        updated: false,
        saved: false,
        deleted: false,
    }
}

/// What a run of `plan` from the state `before` has come to. A run that went
/// through leaves the state after all commands. One that stopped did so at a search
/// by name, and leaves the state after the commands before it.
pub open spec fn ran(
    before: SessionView,
    plan: Seq<(Seq<char>, Command)>,
    quiet: bool,
    after: SessionView,
    done: Result<(), Failure>,
) -> bool {
    match done {
        Ok(_) => after == run_all(before, plan, quiet),
        Err(failure) => {
            &&& failure.at < plan.len()
            &&& plan[failure.at as int].1 == Command::Find(failure.cause.pattern@)
            &&& after == run_all(before, plan.take(failure.at as int), quiet)
        },
    }
}

/// Every position that `marked` gives lies within `hits`.
pub proof fn lemma_marked_bound(hits: Seq<bool>, k: int)
    requires
        0 <= k < marked(hits).len(),
    ensures
        marked(hits)[k] < hits.len(),
    decreases hits.len(),
{
    if hits.len() > 0 {
        if hits.last() {
            if k < marked(hits.drop_last()).len() {
                lemma_marked_bound(hits.drop_last(), k);
            }
        } else {
            lemma_marked_bound(hits.drop_last(), k);
        }
    }
}

/// Every position that `narrowed` keeps lies within `items`.
pub proof fn lemma_narrowed_bound(
    items: Seq<ItemView>,
    selection: Seq<usize>,
    param: ParamType,
    k: int,
)
    requires
        0 <= k < narrowed(items, selection, param).len(),
    ensures
        narrowed(items, selection, param)[k] < items.len(),
    decreases selection.len(),
{
    if selection.len() > 0 {
        let before = narrowed(items, selection.drop_last(), param);
        if k < before.len() {
            lemma_narrowed_bound(items, selection.drop_last(), param, k);
        }
    }
}

/// Changing fields leaves the number of items as it is.
pub proof fn lemma_applied_len(items: Seq<ItemView>, selection: Seq<usize>, cmd: Command)
    ensures
        applied(items, selection, cmd).len() == items.len(),
    decreases selection.len(),
{
    if selection.len() > 0 {
        lemma_applied_len(items, selection.drop_last(), cmd);
    }
}

/// Resolves every token of a command line, in order.
pub fn resolve_line(line: &str) -> (plan: Vec<Planned>)
    ensures
        plan_views(plan@) == resolved(tokenize(line@, SplitFormat::Commands)),
{
    let mut splitter = Splitter::new(line, SplitFormat::Commands);
    let mut plan: Vec<Planned> = Vec::new();
    let ghost all = resolved(tokenize(line@, SplitFormat::Commands));
    assert(plan_views(plan@) + resolved(splitter.remaining()) =~= all);
    loop
        invariant
            plan_views(plan@) + resolved(splitter.remaining()) == all,
        ensures
            plan_views(plan@) == all,
        decreases splitter.remaining().len(),
    {
        let ghost before = plan_views(plan@);
        let ghost left = splitter.remaining();
        match splitter.next() {
            Some(token) => {
                let ghost rest = splitter.remaining();
                assert(rest == left.drop_first());
                let command = ExecCmd::get(token, &mut splitter);
                let entry = Planned { token: token.to_owned(), command };
                plan.push(entry);
                proof {
                    assert(left[0] == token@);
                    assert(plan_views(plan@) =~= before.push(entry@));
                    assert(resolved(left) == seq![entry@] + resolved(rest_after(token@, rest)));
                    assert(before.push(entry@) + resolved(rest_after(token@, rest)) =~= before
                        + resolved(left));
                }
            },
            None => {
                assert(before + resolved(left) =~= before);
                break ;
            },
        }
    }
    plan
}

/// Whether one of the resolved commands is a filter.
pub fn plan_has_filter(plan: &Vec<Planned>) -> (found: bool)
    ensures
        found == has_filter(plan_views(plan@)),
{
    let mut i: usize = 0;
    while i < plan.len()
        invariant
            i <= plan.len(),
            forall|k: int| 0 <= k < i ==> !((#[trigger] plan_views(plan@)[k]).1 is FilterParam),
        decreases plan.len() - i,
    {
        if let ExecCmd::FilterParam(_) = plan[i].command {
            assert(plan_views(plan@)[i as int].1 is FilterParam);
            return true;
        }
        i = i + 1;
    }
    false
}

/// Whether every one of `positions` is below `len`.
pub fn all_within(positions: &Vec<usize>, len: usize) -> (r: bool)
    ensures
        r == within(positions@, len as nat),
{
    let mut i: usize = 0;
    while i < positions.len()
        invariant
            i <= positions.len(),
            forall|k: int| 0 <= k < i ==> (#[trigger] positions@[k]) < len,
        decreases positions.len() - i,
    {
        if positions[i] >= len {
            return false;
        }
        i = i + 1;
    }
    true
}

/// Applies a command that changes a field to the item at `index`.
fn alter(store: &mut AnimeBase, index: usize, cmd: &ExecCmd)
    requires
        alters(cmd@),
        index < old(store)@.len(),
    ensures
        final(store)@ == old(store)@.update(index as int, changed(old(store)@[index as int], cmd@)),
        final(store).name_len == old(store).name_len,
        final(store).series_len == old(store).series_len,
{
    match cmd {
        ExecCmd::Increment(n) => {
            store.progress_increment_by(index, *n);
        },
        ExecCmd::Decrement(n) => {
            store.progress_decrement_by(index, *n);
        },
        ExecCmd::Maximum(counter) => {
            store.set_maximum(index, *counter);
        },
        ExecCmd::Rename(name) => {
            store.set_name(index, name.as_str());
        },
        ExecCmd::Progress(n) => {
            store.set_progress(index, *n);
        },
        ExecCmd::Status(status) => {
            store.set_status(index, *status);
        },
        ExecCmd::Rate(n) => {
            store.set_rate(index, *n);
        },
        _ => {},
    }
}

/// The parts of a run, with nothing hidden: the logic of the driver works on these.
struct State {
    store: AnimeBase,
    selection: Vec<usize>,
    events: Vec<Event>,
    updated: bool,
    saved: bool,
    deleted: bool,
}

impl View for State {
    type V = SessionView;

    closed spec fn view(&self) -> SessionView {
        SessionView {
            items: self.store@,
            name_len: self.store.name_len,
            series_len: self.store.series_len,
            selection: self.selection@,
            events: event_views(self.events@),
            updated: self.updated,
            saved: self.saved,
            deleted: self.deleted,
        }
    }
}

impl State {
    /// A run that has not begun.
    fn new(store: AnimeBase) -> (state: State)
        ensures
            state@ == fresh(store@, store.name_len, store.series_len),
            valid(state@),
    {
        let state = State {
            store,
            selection: Vec::new(),
            events: Vec::new(),
            updated: false,
            saved: false,
            deleted: false,
        };
        assert(event_views(state.events@) =~= Seq::<EventView>::empty());
        state
    }

    /// Adds one event for the listing line of each item at `positions`.
    fn report(&mut self, notice: Notice, positions: &Vec<usize>)
        requires
            forall|k: int|
                0 <= k < positions@.len() ==> (#[trigger] positions@[k]) < old(self)@.items.len(),
        ensures
            final(self)@ == (SessionView {
                events: old(self)@.events + notices(
                    notice,
                    picked(old(self)@.items, positions@),
                    old(self)@.name_len,
                    old(self)@.series_len,
                ),
                ..old(self)@
            }),
    {
        let ghost before = self@;
        let ghost lines = notices(
            notice,
            picked(before.items, positions@),
            before.name_len,
            before.series_len,
        );
        let mut i: usize = 0;
        assert(self@.events =~= before.events + lines.take(0));
        while i < positions.len()
            invariant
                i <= positions.len(),
                forall|k: int|
                    0 <= k < positions@.len() ==> (#[trigger] positions@[k]) < before.items.len(),
                lines == notices(
                    notice,
                    picked(before.items, positions@),
                    before.name_len,
                    before.series_len,
                ),
                self@ == (SessionView { events: before.events + lines.take(i as int), ..before }),
            decreases positions.len() - i,
        {
            let index = positions[i];
            assert(positions@[i as int] < before.items.len());
            let text = self.store.format_by_index(index);
            let event = Event { notice, text };
            let ghost seen = event_views(self.events@);
            self.events.push(event);
            proof {
                assert(event@ == lines[i as int]);
                assert(event_views(self.events@) =~= seen.push(event@));
                assert(before.events + lines.take(i + 1) =~= (before.events + lines.take(
                    i as int,
                )).push(lines[i as int]));
            }
            i = i + 1;
        }
        assert(lines.take(i as int) =~= lines);
    }

    /// Takes the positions `found` into the selection and reports each unless the
    /// run is `quiet`.
    fn select(&mut self, found: &Vec<usize>, quiet: bool)
        requires
            valid(old(self)@),
            forall|k: int|
                0 <= k < found@.len() ==> (#[trigger] found@[k]) < old(self)@.items.len(),
        ensures
            final(self)@ == selected(old(self)@, found@, quiet),
            valid(final(self)@),
    {
        let ghost before = self@;
        let mut i: usize = 0;
        assert(before.selection + found@.take(0) =~= before.selection);
        while i < found.len()
            invariant
                i <= found.len(),
                self@ == (SessionView {
                    selection: before.selection + found@.take(i as int),
                    ..before
                }),
            decreases found.len() - i,
        {
            let index = found[i];
            self.selection.push(index);
            assert(before.selection + found@.take(i + 1) =~= (before.selection + found@.take(
                i as int,
            )).push(index));
            i = i + 1;
        }
        assert(found@.take(i as int) =~= found@);
        if !quiet {
            self.report(Notice::Found, found);
        }
    }

    /// Adds a new item of the given name, selects it and reports it.
    fn add(&mut self, name: &str)
        requires
            valid(old(self)@),
        ensures
            final(self)@ == appended(old(self)@, name@),
            valid(final(self)@),
    {
        let ghost seen = event_views(self.events@);
        let index = self.store.append(name);
        self.selection.push(index);
        let text = self.store.format_by_index(index);
        let event = Event { notice: Notice::Appended, text };
        self.events.push(event);
        assert(event_views(self.events@) =~= seen.push(event@));
    }

    /// Removes the selected items, reports each, and leaves nothing selected.
    fn delete(&mut self)
        ensures
            final(self)@ == (SessionView {
                items: removed(
                    old(self)@.items,
                    old(self)@.selection,
                    old(self)@.items.len() as int,
                ),
                selection: Seq::empty(),
                events: old(self)@.events + notices(
                    Notice::Deleted,
                    taken(old(self)@.items, old(self)@.selection, old(self)@.items.len() as int),
                    old(self)@.name_len,
                    old(self)@.series_len,
                ),
                deleted: true,
                ..old(self)@
            }),
            valid(final(self)@),
    {
        let ghost before = self@;
        let mut chosen: Vec<usize> = Vec::new();
        std::mem::swap(&mut self.selection, &mut chosen);
        let gone = self.store.remove(&chosen);
        let ghost lines = notices(
            Notice::Deleted,
            item_views(gone@),
            before.name_len,
            before.series_len,
        );
        let mut i: usize = 0;
        assert(self@.events =~= before.events + lines.take(0));
        while i < gone.len()
            invariant
                i <= gone.len(),
                lines == notices(
                    Notice::Deleted,
                    item_views(gone@),
                    before.name_len,
                    before.series_len,
                ),
                self@ == (SessionView {
                    items: removed(before.items, before.selection, before.items.len() as int),
                    selection: Seq::empty(),
                    events: before.events + lines.take(i as int),
                    ..before
                }),
            decreases gone.len() - i,
        {
            let text = self.store.format(&gone[i]);
            let event = Event { notice: Notice::Deleted, text };
            let ghost seen = event_views(self.events@);
            self.events.push(event);
            proof {
                assert(event@ == lines[i as int]);
                assert(event_views(self.events@) =~= seen.push(event@));
                assert(before.events + lines.take(i + 1) =~= (before.events + lines.take(
                    i as int,
                )).push(lines[i as int]));
            }
            i = i + 1;
        }
        assert(lines.take(i as int) =~= lines);
        self.deleted = true;
    }

    /// Reports every item of the store.
    fn list(&mut self)
        ensures
            final(self)@ == (SessionView {
                events: old(self)@.events + notices(
                    Notice::Listed,
                    old(self)@.items,
                    old(self)@.name_len,
                    old(self)@.series_len,
                ),
                ..old(self)@
            }),
    {
        let ghost before = self@;
        let mut all: Vec<usize> = Vec::new();
        let mut i: usize = 0;
        while i < self.store.list.len()
            invariant
                i <= self.store.list.len(),
                self@ == before,
                all@.len() == i,
                forall|k: int| 0 <= k < i ==> (#[trigger] all@[k]) == k,
            decreases self.store.list.len() - i,
        {
            all.push(i);
            i = i + 1;
        }
        assert(picked(before.items, all@) =~= before.items);
        self.report(Notice::Listed, &all);
    }

    /// Applies a command that changes a field to every selected item.
    fn apply(&mut self, cmd: &ExecCmd)
        requires
            valid(old(self)@),
            alters(cmd@),
        ensures
            final(self)@ == (SessionView {
                items: applied(old(self)@.items, old(self)@.selection, cmd@),
                updated: true,
                ..old(self)@
            }),
            valid(final(self)@),
    {
        let ghost before = self@;
        let mut i: usize = 0;
        assert(before.selection.take(0) =~= Seq::<usize>::empty());
        while i < self.selection.len()
            invariant
                i <= self.selection.len(),
                alters(cmd@),
                valid(before),
                self@ == (SessionView {
                    items: applied(before.items, before.selection.take(i as int), cmd@),
                    ..before
                }),
            decreases self.selection.len() - i,
        {
            proof {
                lemma_applied_len(before.items, before.selection.take(i as int), cmd@);
                assert(before.selection.take(i + 1).drop_last() =~= before.selection.take(
                    i as int,
                ));
            }
            let index = self.selection[i];
            assert(before.selection[i as int] < before.items.len());
            alter(&mut self.store, index, cmd);
            i = i + 1;
        }
        assert(before.selection.take(i as int) =~= before.selection);
        proof {
            lemma_applied_len(before.items, before.selection, cmd@);
        }
        self.updated = true;
    }

    /// Keeps of the selection what holds `param`, and reports each item kept.
    fn filter(&mut self, param: ParamType)
        ensures
            final(self)@ == (SessionView {
                selection: narrowed(old(self)@.items, old(self)@.selection, param),
                events: old(self)@.events + notices(
                    Notice::Filtered,
                    picked(
                        old(self)@.items,
                        narrowed(old(self)@.items, old(self)@.selection, param),
                    ),
                    old(self)@.name_len,
                    old(self)@.series_len,
                ),
                ..old(self)@
            }),
            valid(final(self)@),
    {
        let kept = self.store.filter_param(&self.selection, param);
        proof {
            assert forall|k: int| 0 <= k < kept@.len() implies (#[trigger] kept@[k])
                < self@.items.len() by {
                lemma_narrowed_bound(self.store@, self.selection@, param, k);
            }
        }
        self.report(Notice::Filtered, &kept);
        self.selection = kept;
    }

    /// Adds one event with a text of its own.
    fn note(&mut self, notice: Notice, text: String)
        ensures
            final(self)@ == (SessionView {
                events: old(self)@.events.push(EventView { notice, text: text@ }),
                ..old(self)@
            }),
    {
        let ghost seen = event_views(self.events@);
        let event = Event { notice, text };
        self.events.push(event);
        assert(event_views(self.events@) =~= seen.push(event@));
    }

    /// Runs one command.
    fn execute(&mut self, token: &str, cmd: &ExecCmd, quiet: bool) -> (done: Result<
        (),
        BadPattern,
    >)
        requires
            valid(old(self)@),
        ensures
            valid(final(self)@),
            match done {
                Ok(_) => final(self)@ == step(old(self)@, token@, cmd@, quiet),
                Err(bad) => final(self)@ == old(self)@ && cmd@ == Command::Find(bad.pattern@),
            },
            !(cmd@ is Find) ==> done is Ok,
    {
        match cmd {
            ExecCmd::Append(name) => {
                self.add(name.as_str());
                Ok(())
            },
            ExecCmd::Delete => {
                self.delete();
                Ok(())
            },
            ExecCmd::Info => {
                self.list();
                Ok(())
            },
            ExecCmd::Find(pattern) => {
                match self.store.find_name(pattern.as_str()) {
                    Ok(found) => {
                        proof {
                            assert forall|k: int| 0 <= k < found@.len() implies (
                            #[trigger] found@[k]) < self@.items.len() by {
                                lemma_marked_bound(name_hits(self@.items, pattern@), k);
                            }
                        }
                        self.select(&found, quiet);
                        Ok(())
                    },
                    Err(error) => Err(error),
                }
            },
            ExecCmd::FindParam(param) => {
                let found = self.store.find_param(*param);
                proof {
                    assert forall|k: int| 0 <= k < found@.len() implies (#[trigger] found@[k])
                        < self@.items.len() by {
                        lemma_marked_bound(param_hits(self@.items, *param), k);
                    }
                }
                self.select(&found, quiet);
                Ok(())
            },
            ExecCmd::FilterParam(param) => {
                self.filter(*param);
                Ok(())
            },
            ExecCmd::Write => {
                let text = self.store.serialize();
                self.note(Notice::Saved, text);
                self.saved = true;
                Ok(())
            },
            ExecCmd::Error(kind) => {
                self.note(Notice::Rejected(*kind), token.to_owned());
                Ok(())
            },
            ExecCmd::Status(Status::Error) => {
                self.note(Notice::BadStatus, token.to_owned());
                Ok(())
            },
            _ => {
                self.apply(cmd);
                Ok(())
            },
        }
    }

    /// Runs the commands of `plan` in order, up to the first search whose pattern does
    /// not compile.
    fn run_plan(&mut self, plan: &Vec<Planned>, quiet: bool) -> (done: Result<(), Failure>)
        requires
            valid(old(self)@),
        ensures
            valid(final(self)@),
            ran(old(self)@, plan_views(plan@), quiet, final(self)@, done),
    {
        let ghost before = self@;
        let ghost all = plan_views(plan@);
        let mut i: usize = 0;
        assert(all.take(0) =~= Seq::<(Seq<char>, Command)>::empty());
        while i < plan.len()
            invariant
                i <= plan.len(),
                all == plan_views(plan@),
                before == old(self)@,
                valid(self@),
                self@ == run_all(before, all.take(i as int), quiet),
            decreases plan.len() - i,
        {
            assert(all.take(i + 1).drop_last() =~= all.take(i as int));
            assert(all.take(i + 1).last() == plan@[i as int]@);
            match self.execute(plan[i].token.as_str(), &plan[i].command, quiet) {
                Ok(_) => {},
                Err(cause) => {
                    assert(all[i as int].1 == Command::Find(cause.pattern@));
                    return Err(Failure { at: i, cause });
                },
            }
            i = i + 1;
        }
        assert(all.take(i as int) =~= all);
        Ok(())
    }

    /// The listing lines of the selected items if a command has changed a field.
    fn updates(&self) -> (lines: Vec<Event>)
        requires
            valid(self@),
        ensures
            event_views(lines@) == update_lines(self@),
    {
        let mut lines: Vec<Event> = Vec::new();
        if self.updated {
            let ghost all = update_lines(self@);
            let mut i: usize = 0;
            assert(event_views(lines@) =~= all.take(0));
            while i < self.selection.len()
                invariant
                    i <= self.selection.len(),
                    all == update_lines(self@),
                    self.updated,
                    valid(self@),
                    event_views(lines@) == all.take(i as int),
                decreases self.selection.len() - i,
            {
                let index = self.selection[i];
                assert(self@.selection[i as int] < self@.items.len());
                let text = self.store.format_by_index(index);
                let event = Event { notice: Notice::Updated, text };
                let ghost seen = event_views(lines@);
                lines.push(event);
                proof {
                    assert(event_views(lines@) =~= seen.push(event@));
                    assert(event@ == all[i as int]);
                    assert(all.take(i + 1) =~= all.take(i as int).push(all[i as int]));
                }
                i = i + 1;
            }
            assert(all.take(i as int) =~= all);
        } else {
            assert(event_views(lines@) =~= Seq::<EventView>::empty());
        }
        lines
    }
}

/// One run of commands over a store: the store, the selection, and what the run has
/// to report. Every selected position lies within the store, whatever was run.
pub struct Session {
    state: State,
}

impl View for Session {
    type V = SessionView;

    closed spec fn view(&self) -> SessionView {
        self.state@
    }
}

impl Session {
    #[verifier::type_invariant]
    spec fn well_formed(self) -> bool {
        valid(self.state@)
    }

    /// Takes the parts out for the time of one call; an empty run stands in for them.
    fn take(&mut self) -> (state: State)
        ensures
            state@ == old(self)@,
            valid(state@),
    {
        proof {
            use_type_invariant(&*self);
        }
        let mut state = State::new(AnimeBase::new());
        std::mem::swap(&mut self.state, &mut state);
        state
    }

    /// A run that has not begun: nothing selected, nothing to report.
    pub fn new(store: AnimeBase) -> (session: Session)
        ensures
            session@ == fresh(store@, store.name_len, store.series_len),
    {
        Session { state: State::new(store) }
    }

    /// The store as the run has left it.
    pub fn store(&self) -> (store: &AnimeBase)
        ensures
            store@ == self@.items,
            store.name_len == self@.name_len,
            store.series_len == self@.series_len,
    {
        &self.state.store
    }

    /// Ends the run and gives the store back.
    pub fn into_store(self) -> (store: AnimeBase)
        ensures
            store@ == self@.items,
            store.name_len == self@.name_len,
            store.series_len == self@.series_len,
    {
        self.state.store
    }

    /// The selection. Every position in it lies within the store.
    pub fn selection(&self) -> (selection: &Vec<usize>)
        ensures
            selection@ == self@.selection,
            valid(self@),
    {
        proof {
            use_type_invariant(self);
        }
        &self.state.selection
    }

    /// The events so far, in order.
    pub fn events(&self) -> (events: &Vec<Event>)
        ensures
            event_views(events@) == self@.events,
    {
        &self.state.events
    }

    /// Whether a command has changed a field.
    pub fn updated(&self) -> (flag: bool)
        ensures
            flag == self@.updated,
    {
        self.state.updated
    }

    /// Whether the list was asked to be stored.
    pub fn saved(&self) -> (flag: bool)
        ensures
            flag == self@.saved,
    {
        self.state.saved
    }

    /// Whether a delete command has run.
    pub fn deleted(&self) -> (flag: bool)
        ensures
            flag == self@.deleted,
    {
        self.state.deleted
    }

    /// Takes the positions `found` into the selection, as a search that has found
    /// them does, and reports each unless the run is `quiet`. A position outside the
    /// store is refused, and nothing changes.
    pub fn select(&mut self, found: &Vec<usize>, quiet: bool) -> (done: bool)
        ensures
            done == within(found@, old(self)@.items.len()),
            final(self)@ == if done {
                selected(old(self)@, found@, quiet)
            } else {
                old(self)@
            },
    {
        let mut state = self.take();
        let done = all_within(found, state.store.list.len());
        if done {
            state.select(found, quiet);
        }
        self.state = state;
        done
    }

    /// Runs one command. `token` is the token it was resolved from, and `quiet` tells
    /// whether searches select without a word.
    ///
    /// Only a search by name can fail, and only where its pattern does not compile:
    /// the state is then as it was.
    pub fn execute(&mut self, token: &str, cmd: &ExecCmd, quiet: bool) -> (done: Result<
        (),
        BadPattern,
    >)
        ensures
            match done {
                Ok(_) => final(self)@ == step(old(self)@, token@, cmd@, quiet),
                Err(bad) => final(self)@ == old(self)@ && cmd@ == Command::Find(bad.pattern@),
            },
            !(cmd@ is Find) ==> done is Ok,
    {
        let mut state = self.take();
        let done = state.execute(token, cmd, quiet);
        self.state = state;
        done
    }

    /// Runs the commands of `plan` in order, up to the first search whose pattern does
    /// not compile.
    pub fn run_plan(&mut self, plan: &Vec<Planned>, quiet: bool) -> (done: Result<(), Failure>)
        ensures
            ran(old(self)@, plan_views(plan@), quiet, final(self)@, done),
    {
        let mut state = self.take();
        let done = state.run_plan(plan, quiet);
        self.state = state;
        done
    }

    /// Resolves the whole command line, then runs its commands in order. Searches
    /// select without a word where one of the commands is a filter.
    pub fn run(&mut self, line: &str) -> (done: Result<(), Failure>)
        ensures
            ran(
                old(self)@,
                resolved(tokenize(line@, SplitFormat::Commands)),
                has_filter(resolved(tokenize(line@, SplitFormat::Commands))),
                final(self)@,
                done,
            ),
    {
        let plan = resolve_line(line);
        let quiet = plan_has_filter(&plan);
        self.run_plan(&plan, quiet)
    }

    /// What is to be shown when the run is over: the selected items if a command has
    /// changed a field, then, if the list was stored, whether anything had changed.
    pub fn closing(&self) -> (lines: Vec<Event>)
        ensures
            event_views(lines@) == closing_lines(self@),
    {
        proof {
            use_type_invariant(self);
        }
        let mut lines = self.state.updates();
        if self.state.saved {
            let notice = if self.state.updated || self.state.deleted {
                Notice::ChangesSaved
            } else {
                Notice::NothingToSave
            };
            let ghost seen = event_views(lines@);
            let event = Event { notice, text: String::new() };
            lines.push(event);
            assert(event_views(lines@) =~= seen.push(event@));
        }
        lines
    }
}

} // verus!
