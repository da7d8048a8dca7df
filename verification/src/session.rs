use crate::filter::{fuzzy_find, lemma_shown_length, shown};
use crate::query::{edited, word_boundary, Edit, Query, QueryView};
use crate::selection::{
    is_settled, is_valid, move_down, move_up, moved_down, moved_up, reconcile, reconciled,
};
use vstd::prelude::*;

verus! {

/// What a cancelled session reports in place of a result.
pub const CANCEL_MESSAGE: &'static str = "User cancelled";

/// A key, as far as the picker tells keys apart.
#[derive(Clone, Copy, Debug, PartialEq, Eq)]
pub enum Key {
    Enter,
    Esc,
    Up,
    Down,
    /// Any other key, with the edit that it stands for in a line of text,
    /// if it stands for one.
    Other(Option<Edit>),
}

/// What the terminal reports to the picker.
#[derive(Clone, Copy, Debug, PartialEq, Eq)]
pub enum Event {
    /// A key was pressed.
    Key(Key),
    /// The pointer moved or a button of it was pressed. The picker does not
    /// react to it.
    Mouse,
    /// Anything else. The picker does not react to it.
    Other,
}

/// How the session goes on after an event.
#[derive(Debug, PartialEq, Eq)]
pub enum Outcome {
    /// The session continues.
    Continue,
    /// The session ends with this entry as its result.
    Chosen(String),
    /// The session ends without a result, at the user's wish.
    Cancelled,
}

/// The state of a session as plain values.
pub struct StateView {
    pub query: QueryView,
    pub list: Seq<Seq<char>>,
    pub selection: Option<usize>,
    pub filtered: Seq<Seq<char>>,
}

/// The state after `event`. `prev_word` and `next_word` are the places where
/// the two word motions from the query's cursor end.
pub open spec fn stepped(before: StateView, event: Event, prev_word: nat, next_word: nat) -> StateView {
    match event {
        Event::Key(Key::Up) => StateView {
            selection: moved_up(before.selection, before.filtered.len()),
            ..before
        },
        Event::Key(Key::Down) => StateView {
            selection: moved_down(before.selection, before.filtered.len()),
            ..before
        },
        Event::Key(Key::Other(Some(edit))) => StateView {
            query: edited(before.query, edit, prev_word, next_word),
            ..before
        },
        _ => before,
    }
}

/// Whether the entries shown are those that the query selects.
pub open spec fn is_fresh(state: StateView) -> bool {
    state.filtered == shown(state.query.text, state.list)
}

/// Whether an entry is selected exactly if one is shown.
pub open spec fn is_settled_state(state: StateView) -> bool {
    is_settled(state.selection, state.filtered.len())
}

/// The state after the entries shown have been computed anew and the
/// selection reconciled with them.
pub open spec fn refreshed(before: StateView) -> StateView {
    let filtered = shown(before.query.text, before.list);
    StateView { filtered, selection: reconciled(before.selection, filtered.len()), ..before }
}

/// The state of a session: the query, the candidates, the entries shown
/// for the query and the selection among them.
pub struct State {
    query: Query,
    list: Vec<String>,
    selection: Option<usize>,
    filtered: Vec<String>,
}

impl View for State {
    type V = StateView;

    closed spec fn view(&self) -> StateView {
        StateView {
            query: self.query@,
            list: self.list.deep_view(),
            selection: self.selection,
            filtered: self.filtered.deep_view(),
        }
    }
}

impl State {
    #[verifier::type_invariant]
    pub closed spec fn selection_in_range(self) -> bool {
        is_valid(self.selection, self.filtered@.len())
    }

    /// The state in which a session starts: an empty query, nothing shown
    /// yet and nothing selected.
    pub fn new(list: Vec<String>) -> (state: State)
        ensures
            state@ == (StateView {
                query: QueryView { text: Seq::empty(), cursor: 0 },
                list: list.deep_view(),
                selection: None,
                filtered: Seq::empty(),
            }),
    {
        let state = State { query: Query::new(), list, selection: None, filtered: Vec::new() };
        assert(state.filtered.deep_view() =~= Seq::<Seq<char>>::empty());
        state
    }

    /// The query.
    pub fn query(&self) -> (query: &Query)
        ensures
            query@ == self@.query,
    {
        &self.query
    }

    /// The candidates, as they were given.
    pub fn candidates(&self) -> (list: &[String])
        ensures
            list.deep_view() == self@.list,
    {
        let list = self.list.as_slice();
        assert(list.deep_view() =~= self.list.deep_view());
        list
    }

    /// The entries shown.
    pub fn filtered(&self) -> (filtered: &[String])
        ensures
            filtered.deep_view() == self@.filtered,
    {
        let filtered = self.filtered.as_slice();
        assert(filtered.deep_view() =~= self.filtered.deep_view());
        filtered
    }

    /// The selection: the index of an entry shown, or nothing.
    pub fn selection(&self) -> (selection: Option<usize>)
        ensures
            selection == self@.selection,
            is_valid(selection, self@.filtered.len()),
    {
        proof {
            use_type_invariant(self);
        }
        self.selection
    }

    /// Computes the entries shown anew from the query and reconciles the
    /// selection with them.
    pub fn refresh(&mut self)
        ensures
            final(self)@ == refreshed(old(self)@),
            is_fresh(final(self)@),
            is_settled_state(final(self)@),
    {
        let list = self.list.as_slice();
        assert(list.deep_view() =~= self.list.deep_view());
        let filtered = fuzzy_find(self.query.value(), list);
        let selection = reconcile(self.selection, filtered.len());
        self.selection = None;
        self.filtered = filtered;
        self.selection = selection;
    }

    /// The entry that Enter chooses: the selected one, or nothing where none
    /// is selected.
    pub fn confirm(&self) -> (chosen: Option<String>)
        ensures
            match chosen {
                Some(text) => {
                    &&& self@.selection matches Some(i)
                    &&& text@ == self@.filtered[i as int]
                },
                None => self@.selection is None,
            },
    {
        proof {
            use_type_invariant(self);
        }
        match self.selection {
            Some(i) => Some(self.filtered[i].clone()),
            None => None,
        }
    }

    /// Reacts to one event.
    ///
    /// Enter chooses the selected entry and is ignored where none is
    /// selected. Esc cancels the session whatever the state. The two arrows
    /// move the selection, a key that stands for an edit changes the query,
    /// and every other event leaves the state as it is.
    pub fn handle_event(&mut self, event: Event) -> (outcome: Outcome)
        ensures
            final(self)@ == stepped(
                old(self)@,
                event,
                word_boundary(old(self)@.query.text, old(self)@.query.cursor, false),
                word_boundary(old(self)@.query.text, old(self)@.query.cursor, true),
            ),
            match outcome {
                Outcome::Chosen(text) => {
                    &&& event == Event::Key(Key::Enter)
                    &&& old(self)@.selection matches Some(i)
                    &&& text@ == old(self)@.filtered[i as int]
                },
                Outcome::Cancelled => event == Event::Key(Key::Esc),
                Outcome::Continue => {
                    &&& event != Event::Key(Key::Esc)
                    &&& !(event == Event::Key(Key::Enter) && old(self)@.selection is Some)
                },
            },
    {
        proof {
            use_type_invariant(&*self);
        }
        match event {
            Event::Key(key) => match key {
                Key::Enter => match self.confirm() {
                    Some(text) => Outcome::Chosen(text),
                    None => Outcome::Continue,
                },
                Key::Esc => Outcome::Cancelled,
                Key::Up => {
                    self.selection = move_up(self.selection, self.filtered.len());
                    Outcome::Continue
                },
                Key::Down => {
                    self.selection = move_down(self.selection, self.filtered.len());
                    Outcome::Continue
                },
                Key::Other(Some(edit)) => {
                    self.query = self.query.with_edit(edit);
                    Outcome::Continue
                },
                Key::Other(None) => Outcome::Continue,
            },
            Event::Mouse => Outcome::Continue,
            Event::Other => Outcome::Continue,
        }
    }
}

/// An entry is selected exactly if one is shown: that holds after every
/// refresh, and once it holds no event undoes it.
pub proof fn lemma_selection_invariant(before: StateView, event: Event, prev_word: nat, next_word: nat)
    requires
        before.list.len() <= usize::MAX,
        before.filtered.len() <= usize::MAX,
    ensures
        is_settled_state(refreshed(before)),
        is_settled_state(before) ==> is_settled_state(stepped(before, event, prev_word, next_word)),
{
    lemma_shown_length(before.query.text, before.list);
}

} // verus!
