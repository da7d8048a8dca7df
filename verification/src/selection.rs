use vstd::prelude::*;

verus! {

/// A selection that points into a list of `len` entries, or at nothing.
pub open spec fn is_valid(selection: Option<usize>, len: nat) -> bool {
    selection matches Some(i) ==> i < len
}

/// The state in which the picker shows a list of `len` entries: an entry is
/// selected exactly if there is one to select.
pub open spec fn is_settled(selection: Option<usize>, len: nat) -> bool {
    if len == 0 {
        selection is None
    } else {
        selection matches Some(i) && i < len
    }
}

/// The selection brought in line with a list that now has `len` entries.
pub open spec fn reconciled(selection: Option<usize>, len: nat) -> Option<usize> {
    match selection {
        Some(i) => if i < len {
            Some(i)
        } else if len > 0 {
            Some((len - 1) as usize)
        } else {
            None
        },
        None => if len > 0 {
            Some(0)
        } else {
            None
        },
    }
}

/// The selection after a move up in a list of `len` entries.
pub open spec fn moved_up(selection: Option<usize>, len: nat) -> Option<usize> {
    match selection {
        Some(i) => if i > 0 {
            Some((i - 1) as usize)
        } else {
            Some(i)
        },
        None => if len > 0 {
            Some((len - 1) as usize)
        } else {
            None
        },
    }
}

/// The selection after a move down in a list of `len` entries.
pub open spec fn moved_down(selection: Option<usize>, len: nat) -> Option<usize> {
    match selection {
        Some(i) => if i + 1 < len {
            Some((i + 1) as usize)
        } else {
            Some(i)
        },
        None => if len > 0 {
            Some(0)
        } else {
            None
        },
    }
}

/// Brings the selection in line with a list that has changed: an index past
/// the end moves to the last entry, or to nothing if there is none, and
/// where nothing was selected the first entry is.
pub fn reconcile(selection: Option<usize>, len: usize) -> (result: Option<usize>)
    ensures
        result == reconciled(selection, len as nat),
        is_settled(result, len as nat),
{
    match selection {
        Some(i) => {
            if i < len {
                Some(i)
            } else if len > 0 {
                Some(len - 1)
            } else {
                None
            }
        },
        None => {
            if len > 0 {
                Some(0)
            } else {
                None
            }
        },
    }
}

/// Moves the selection one entry up. It stays on the first entry; from
/// nothing selected it goes to the last entry.
pub fn move_up(selection: Option<usize>, len: usize) -> (result: Option<usize>)
    ensures
        result == moved_up(selection, len as nat),
{
    match selection {
        Some(i) => {
            if i > 0 {
                Some(i - 1)
            } else {
                Some(i)
            }
        },
        None => {
            if len > 0 {
                Some(len - 1)
            } else {
                None
            }
        },
    }
}

/// Moves the selection one entry down. It stays on the last entry; from
/// nothing selected it goes to the first entry.
pub fn move_down(selection: Option<usize>, len: usize) -> (result: Option<usize>)
    ensures
        result == moved_down(selection, len as nat),
{
    match selection {
        Some(i) => {
            if len > 0 && i < len - 1 {
                Some(i + 1)
            } else {
                Some(i)
            }
        },
        None => {
            if len > 0 {
                Some(0)
            } else {
                None
            }
        },
    }
}

/// Reconciling settles any selection, and a settled selection stays settled
/// under both moves.
pub proof fn lemma_selection_stays_settled(selection: Option<usize>, len: nat)
    requires
        len <= usize::MAX,
    ensures
        is_settled(reconciled(selection, len), len),
        is_settled(selection, len) ==> is_settled(moved_up(selection, len), len),
        is_settled(selection, len) ==> is_settled(moved_down(selection, len), len),
        is_settled(selection, len) ==> reconciled(selection, len) == selection,
{
}

} // verus!
