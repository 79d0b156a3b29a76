//! What the surrounding application does in answer to a menu item or to a
//! change in the watched directory.
//!
//! The functions here decide; opening, closing and notifying is left to the caller.

use crate::text::same_text;
use vstd::prelude::*;
use vstd::string::{StrSliceExecFns, StringExecFns};

verus! {

/// What a menu item asks for.
#[derive(Debug, Clone, Copy, PartialEq, Eq)]
pub enum MenuAction {
    /// End the application.
    Quit,
    /// Open the window of the MFA cache.
    OpenMfaCache,
    /// Close the window that received the event.
    CloseWindow,
    /// The item is not for this window, or is not known.
    Nothing,
}

/// The position of the first `-` of `text`, or its length where it has none.
pub open spec fn first_dash(text: Seq<char>) -> int
    decreases text.len(),
{
    if text.len() == 0 {
        0
    } else if text[0] == '-' {
        0
    } else {
        1 + first_dash(text.skip(1))
    }
}

/// The part of `text` before its first `-`.
pub open spec fn before_dash(text: Seq<char>) -> Seq<char> {
    text.take(first_dash(text))
}

/// The part of `text` after its first `-`, if it has one.
pub open spec fn after_dash(text: Seq<char>) -> Option<Seq<char>> {
    if first_dash(text) < text.len() {
        Some(text.skip(first_dash(text) + 1))
    } else {
        None
    }
}

/// The identifier of the item that closes the window `window_label`.
pub open spec fn close_item_id_of(window_label: Seq<char>) -> Seq<char> {
    window_label + "-close"@
}

/// What the item `event_id` asks of the window `window_label`.
///
/// `quit` and `open_mfa_cache` are known to every window. Any other
/// identifier is read as components separated by `-`: it closes the window
/// when the first component is the window's label and the second is `close`.
pub open spec fn menu_action_of(event_id: Seq<char>, window_label: Seq<char>) -> MenuAction {
    if event_id == "quit"@ {
        MenuAction::Quit
    } else if event_id == "open_mfa_cache"@ {
        MenuAction::OpenMfaCache
    } else {
        match after_dash(event_id) {
            Some(rest) => if before_dash(rest) == "close"@ && before_dash(event_id)
                == window_label {
                MenuAction::CloseWindow
            } else {
                MenuAction::Nothing
            },
            None => MenuAction::Nothing,
        }
    }
}

/// Whether a change is passed on to the launcher: only a write to the file
/// named `config` that has been closed is.
pub open spec fn is_reported_change(closed_after_write: bool, file_name: Seq<char>) -> bool {
    closed_after_write && file_name == "config"@
}

/// `first_dash` is the least position that holds a `-`.
pub proof fn lemma_first_dash(text: Seq<char>)
    ensures
        0 <= first_dash(text) <= text.len(),
        forall|i: int| 0 <= i < first_dash(text) ==> text[i] != '-',
        first_dash(text) < text.len() ==> text[first_dash(text)] == '-',
    decreases text.len(),
{
    if text.len() > 0 && text[0] != '-' {
        let rest = text.skip(1);
        lemma_first_dash(rest);
        assert forall|i: int| 0 <= i < first_dash(text) implies text[i] != '-' by {
            if i > 0 {
                assert(rest[i - 1] == text[i]);
            }
        }
        if first_dash(text) < text.len() {
            assert(rest[first_dash(rest)] == text[first_dash(text)]);
        }
    }
}

proof fn lemma_first_dash_is(text: Seq<char>, at: int)
    requires
        0 <= at <= text.len(),
        forall|i: int| 0 <= i < at ==> text[i] != '-',
        at < text.len() ==> text[at] == '-',
    ensures
        first_dash(text) == at,
{
    lemma_first_dash(text);
}

/// The item that closes a window closes that window and no other, as long as
/// the window's label holds no `-`.
pub proof fn law_close_item_closes_its_window(window_label: Seq<char>, other_label: Seq<char>)
    requires
        forall|i: int| 0 <= i < window_label.len() ==> window_label[i] != '-',
    ensures
        menu_action_of(close_item_id_of(window_label), window_label) == MenuAction::CloseWindow,
        other_label != window_label ==> menu_action_of(close_item_id_of(window_label), other_label)
            == MenuAction::Nothing,
{
    reveal_strlit("-close");
    reveal_strlit("close");
    reveal_strlit("quit");
    reveal_strlit("open_mfa_cache");
    let id = close_item_id_of(window_label);
    let n = window_label.len() as int;
    assert(id[n] == '-');
    assert forall|i: int| 0 <= i < n implies id[i] != '-' by {
        assert(id[i] == window_label[i]);
    }
    lemma_first_dash_is(id, n);
    assert(id.take(n) =~= window_label);
    assert(id.skip(n + 1) =~= "close"@);
    lemma_first_dash_is("close"@, 5);
    assert("close"@.take(5) =~= "close"@);
    assert(id != "quit"@) by {
        if id == "quit"@ {
            assert("quit"@[n] == '-');
        }
    }
    assert(id != "open_mfa_cache"@) by {
        if id == "open_mfa_cache"@ {
            assert("open_mfa_cache"@[n] == '-');
        }
    }
}

/// The position of the first `-` of `text`, or its length where it has none.
fn find_dash(text: &str) -> (at: usize)
    ensures
        at == first_dash(text@),
        at <= text@.len(),
{
    let n = text.unicode_len();
    let mut i: usize = 0;
    while i < n && text.get_char(i) != '-'
        invariant
            i <= n == text@.len(),
            forall|j: int| 0 <= j < i ==> text@[j] != '-',
        decreases n - i,
    {
        i += 1;
    }
    proof {
        lemma_first_dash_is(text@, i as int);
    }
    i
}

/// The identifier of the item that closes the window `window_label`.
pub fn close_item_id(window_label: &str) -> (id: String)
    ensures
        id@ == close_item_id_of(window_label@),
{
    let mut id = String::from_str(window_label);
    id.append("-close");
    id
}

/// Decides what the menu item `event_id` asks of the window `window_label`.
pub fn menu_action(event_id: &str, window_label: &str) -> (action: MenuAction)
    ensures
        action == menu_action_of(event_id@, window_label@),
{
    if same_text(event_id, "quit") {
        return MenuAction::Quit;
    }
    if same_text(event_id, "open_mfa_cache") {
        return MenuAction::OpenMfaCache;
    }
    let n = event_id.unicode_len();
    let dash = find_dash(event_id);
    if dash >= n {
        return MenuAction::Nothing;
    }
    let window_name = event_id.substring_char(0, dash);
    let rest = event_id.substring_char(dash + 1, n);
    let command_name = rest.substring_char(0, find_dash(rest));
    if same_text(command_name, "close") && same_text(window_name, window_label) {
        MenuAction::CloseWindow
    } else {
        MenuAction::Nothing
    }
}

/// Decides whether a change in the watched directory is passed on to the launcher.
pub fn reports_change(closed_after_write: bool, file_name: &str) -> (result: bool)
    ensures
        result == is_reported_change(closed_after_write, file_name@),
{
    closed_after_write && same_text(file_name, "config")
}

} // verus!
