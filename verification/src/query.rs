use tui_input::Input;
use tui_input::InputRequest as Request;
use vstd::prelude::*;
use vstd::string::*;

verus! {

/// A change to the query that a key press asks for.
#[derive(Clone, Copy, Debug, PartialEq, Eq)]
pub enum Edit {
    /// Put a character in at the cursor.
    InsertChar(char),
    /// Move the cursor one character to the left.
    GoToPrevChar,
    /// Move the cursor one character to the right.
    GoToNextChar,
    /// Move the cursor to the start of the word before it.
    GoToPrevWord,
    /// Move the cursor to the start of the word after it.
    GoToNextWord,
    /// Move the cursor to the start of the text.
    GoToStart,
    /// Move the cursor to the end of the text.
    GoToEnd,
    /// Take out the character before the cursor.
    DeletePrevChar,
    /// Take out the character at the cursor.
    DeleteNextChar,
    /// Take out the text from the start of the word before the cursor up
    /// to the cursor.
    DeletePrevWord,
    /// Take out the text from the cursor up to the start of the word after
    /// it.
    DeleteNextWord,
    /// Take out the whole text.
    DeleteLine,
    /// Take out the text from the cursor on.
    DeleteTillEnd,
}

/// The query as a text and the place of the cursor in it, counted in
/// characters.
pub struct QueryView {
    pub text: Seq<char>,
    pub cursor: nat,
}

/// Where a word motion from `cursor` ends in `text`: the start of the word
/// before the cursor, or, going forward, the start of the word after it.
pub uninterp spec fn word_boundary(text: Seq<char>, cursor: nat, forward: bool) -> nat;

/// The query after `edit`. `prev_word` and `next_word` are the places where
/// the two word motions from the cursor end.
pub open spec fn edited(
    before: QueryView,
    edit: Edit,
    prev_word: nat,
    next_word: nat,
) -> QueryView {
    let text = before.text;
    let cursor = before.cursor;
    let at_start = cursor == 0;
    let at_end = cursor == text.len();
    match edit {
        Edit::InsertChar(c) => QueryView {
            text: text.insert(cursor as int, c),
            cursor: cursor + 1,
        },
        Edit::GoToPrevChar => if at_start {
            before
        } else {
            QueryView { text, cursor: (cursor - 1) as nat }
        },
        Edit::GoToNextChar => if at_end {
            before
        } else {
            QueryView { text, cursor: cursor + 1 }
        },
        Edit::GoToPrevWord => if at_start {
            before
        } else {
            QueryView { text, cursor: prev_word }
        },
        Edit::GoToNextWord => if at_end {
            before
        } else {
            QueryView { text, cursor: next_word }
        },
        Edit::GoToStart => QueryView { text, cursor: 0 },
        Edit::GoToEnd => QueryView { text, cursor: text.len() },
        Edit::DeletePrevChar => if at_start {
            before
        } else {
            QueryView { text: text.remove(cursor - 1), cursor: (cursor - 1) as nat }
        },
        Edit::DeleteNextChar => if at_end {
            before
        } else {
            QueryView { text: text.remove(cursor as int), cursor }
        },
        Edit::DeletePrevWord => if at_start {
            before
        } else {
            QueryView {
                text: text.take(prev_word as int) + text.skip(cursor as int),
                cursor: prev_word,
            }
        },
        Edit::DeleteNextWord => if at_end {
            before
        } else {
            QueryView { text: text.take(cursor as int) + text.skip(next_word as int), cursor }
        },
        Edit::DeleteLine => QueryView { text: Seq::empty(), cursor: 0 },
        Edit::DeleteTillEnd => QueryView { text: text.take(cursor as int), cursor },
    }
}

/// Applies `edit` with `Input::handle` of tui-input, on an input made by
/// `Input::new` and `Input::with_cursor` to hold `value` with its cursor at
/// `cursor`, and reads the text and the cursor back with `Input::value` and
/// `Input::cursor`. The contract restates, request by request, what `handle`
/// does to the text and the cursor; where a word motion ends is left to
/// `word_boundary`. The cursor that comes back lies within the text that
/// comes back.
#[verifier::external_body]
fn handle_edit(value: &str, cursor: usize, edit: Edit) -> (r: (String, usize))
    requires
        cursor <= value@.len(),
    ensures
        (QueryView { text: r.0@, cursor: r.1 as nat }) == edited(
            (QueryView { text: value@, cursor: cursor as nat }),
            edit,
            word_boundary(value@, cursor as nat, false),
            word_boundary(value@, cursor as nat, true),
        ),
        r.1 <= r.0@.len(),
{
    let request = match edit {
        Edit::InsertChar(c) => Request::InsertChar(c),
        Edit::GoToPrevChar => Request::GoToPrevChar, Edit::GoToNextChar => Request::GoToNextChar,
        Edit::GoToPrevWord => Request::GoToPrevWord, Edit::GoToNextWord => Request::GoToNextWord,
        Edit::GoToStart => Request::GoToStart, Edit::GoToEnd => Request::GoToEnd,
        Edit::DeletePrevChar => Request::DeletePrevChar, Edit::DeleteNextChar => Request::DeleteNextChar,
        Edit::DeletePrevWord => Request::DeletePrevWord, Edit::DeleteNextWord => Request::DeleteNextWord,
        Edit::DeleteLine => Request::DeleteLine, Edit::DeleteTillEnd => Request::DeleteTillEnd,
    };
    let mut input = Input::new(value.to_string()).with_cursor(cursor);
    input.handle(request);
    (input.value().to_string(), input.cursor())
}

/// The column of the terminal at which the cursor stands when the text is
/// drawn from its first character: the display width of the characters
/// before the cursor.
pub uninterp spec fn visual_column(text: Seq<char>, cursor: nat) -> nat;

/// The number of columns by which the text is shifted to the left so that
/// the cursor can be shown in a window `width` columns wide.
pub uninterp spec fn visual_offset(text: Seq<char>, cursor: nat, width: nat) -> nat;

/// `Input::visual_cursor` of tui-input, on an input that holds `value` with
/// its cursor at `cursor`. It measures the text before the cursor with the
/// width tables of Unicode; the result is named, not restated.
#[verifier::external_body]
fn measure_column(value: &str, cursor: usize) -> (column: usize)
    requires
        cursor <= value@.len(),
    ensures
        column == visual_column(value@, cursor as nat),
{
    Input::new(value.to_string()).with_cursor(cursor).visual_cursor()
}

/// `Input::visual_scroll` of tui-input, on an input that holds `value` with
/// its cursor at `cursor`. It adds up character widths from the start of the
/// text; the result is named, not restated.
#[verifier::external_body]
fn measure_offset(value: &str, cursor: usize, width: usize) -> (offset: usize)
    requires
        cursor <= value@.len(),
    ensures
        offset == visual_offset(value@, cursor as nat, width as nat),
{
    Input::new(value.to_string()).with_cursor(cursor).visual_scroll(width)
}

/// The cursor after a move by `delta` characters, kept within the text.
pub open spec fn moved_cursor(before: QueryView, delta: int) -> nat {
    if before.cursor + delta < 0 {
        0
    } else if before.cursor + delta > before.text.len() {
        before.text.len()
    } else {
        (before.cursor + delta) as nat
    }
}

/// The query buffer: the text typed so far and the cursor in it.
pub struct Query {
    value: String,
    cursor: usize,
}

impl View for Query {
    type V = QueryView;

    closed spec fn view(&self) -> QueryView {
        QueryView { text: self.value@, cursor: self.cursor as nat }
    }
}

impl Query {
    #[verifier::type_invariant]
    pub closed spec fn cursor_in_text(self) -> bool {
        self.cursor <= self.value@.len()
    }

    /// The empty query.
    pub fn new() -> (query: Query)
        ensures
            query@ == (QueryView { text: Seq::empty(), cursor: 0 }),
    {
        Query { value: String::new(), cursor: 0 }
    }

    /// The text of the query.
    pub fn value(&self) -> (text: &str)
        ensures
            text@ == self@.text,
    {
        self.value.as_str()
    }

    /// The cursor, as the number of characters before it.
    pub fn cursor(&self) -> (cursor: usize)
        ensures
            cursor == self@.cursor,
            cursor <= self@.text.len(),
    {
        proof {
            use_type_invariant(self);
        }
        self.cursor
    }

    /// The query that `edit` makes of this one.
    pub fn with_edit(&self, edit: Edit) -> (after: Query)
        ensures
            after@ == edited(
                self@,
                edit,
                word_boundary(self@.text, self@.cursor, false),
                word_boundary(self@.text, self@.cursor, true),
            ),
            after@.cursor <= after@.text.len(),
    {
        proof {
            use_type_invariant(self);
        }
        let (value, cursor) = handle_edit(self.value.as_str(), self.cursor, edit);
        Query { value, cursor }
    }

    /// Applies one edit.
    pub fn apply(&mut self, edit: Edit)
        ensures
            final(self)@ == edited(
                old(self)@,
                edit,
                word_boundary(old(self)@.text, old(self)@.cursor, false),
                word_boundary(old(self)@.text, old(self)@.cursor, true),
            ),
            final(self)@.cursor <= final(self)@.text.len(),
    {
        let after = self.with_edit(edit);
        *self = after;
    }

    /// Puts `c` in at the cursor and moves the cursor behind it.
    pub fn insert(&mut self, c: char)
        ensures
            final(self)@.text == old(self)@.text.insert(old(self)@.cursor as int, c),
            final(self)@.cursor == old(self)@.cursor + 1,
            final(self)@.cursor <= final(self)@.text.len(),
    {
        self.apply(Edit::InsertChar(c));
    }

    /// Takes out the character before the cursor, if there is one.
    pub fn delete_backward(&mut self)
        ensures
            old(self)@.cursor == 0 ==> final(self)@ == old(self)@,
            old(self)@.cursor > 0 ==> final(self)@.text == old(self)@.text.remove(
                old(self)@.cursor - 1,
            ) && final(self)@.cursor == old(self)@.cursor - 1,
            final(self)@.cursor <= final(self)@.text.len(),
    {
        self.apply(Edit::DeletePrevChar);
    }

    /// Moves the cursor by `delta` characters, to the right for a positive
    /// `delta`, and stops at either end of the text.
    pub fn move_cursor(&mut self, delta: isize)
        ensures
            final(self)@.text == old(self)@.text,
            final(self)@.cursor == moved_cursor(old(self)@, delta as int),
            final(self)@.cursor <= final(self)@.text.len(),
    {
        proof {
            use_type_invariant(&*self);
        }
        let len = self.value.as_str().unicode_len();
        if delta >= 0 {
            let forward = delta as usize;
            if forward >= len - self.cursor {
                self.cursor = len;
            } else {
                self.cursor = self.cursor + forward;
            }
        } else {
            let back_less_one = (-(delta + 1)) as usize;
            if back_less_one >= self.cursor {
                self.cursor = 0;
            } else {
                self.cursor = self.cursor - back_less_one - 1;
            }
        }
    }

    /// The column at which the cursor stands in the unscrolled text.
    pub fn visual_cursor(&self) -> (column: usize)
        ensures
            column == visual_column(self@.text, self@.cursor),
    {
        proof {
            use_type_invariant(self);
        }
        measure_column(self.value.as_str(), self.cursor)
    }

    /// The number of columns to scroll the text by in a window of `width`
    /// columns.
    pub fn visual_scroll(&self, width: usize) -> (offset: usize)
        ensures
            offset == visual_offset(self@.text, self@.cursor, width as nat),
    {
        proof {
            use_type_invariant(self);
        }
        measure_offset(self.value.as_str(), self.cursor, width)
    }
}

} // verus!
