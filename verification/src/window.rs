//! What closing the main window does.
use vstd::prelude::*;

verus! {

/// The answer to a request to close the main window.
#[derive(Debug, Clone, Copy, PartialEq, Eq, Structural)]
pub enum CloseAction {
    /// Keep running and hide the window in the tray; `notice` tells whether
    /// to show, this once, how to quit from the tray.
    HideToTray { notice: bool },
    /// Store the running sessions, then let the window close.
    SaveAndQuit,
}

/// Decides a close request: with minimising to the tray on, the window is
/// hidden, with the notice on the first such close only (`first_close` is
/// then cleared); otherwise the sessions are stored and the program quits,
/// and `first_close` stays.
pub fn close_requested(minimize_to_tray: bool, first_close: &mut bool) -> (r: CloseAction)
    ensures
        minimize_to_tray ==> r == (CloseAction::HideToTray { notice: *old(first_close) }) && !*final(first_close),
        !minimize_to_tray ==> r == CloseAction::SaveAndQuit && *final(first_close) == *old(first_close),
{
    if minimize_to_tray {
        let notice = *first_close;
        *first_close = false;
        CloseAction::HideToTray { notice }
    } else {
        CloseAction::SaveAndQuit
    }
}

/// The answers to close requests made with the tray setting `tray[i]` each,
/// as `close_requested` gives them one after the other, starting with
/// `first_close`.
pub open spec fn close_run(first_close: bool, tray: Seq<bool>) -> Seq<CloseAction>
    decreases tray.len(),
{
    if tray.len() == 0 {
        seq![]
    } else if tray[0] {
        seq![CloseAction::HideToTray { notice: first_close }] + close_run(false, tray.drop_first())
    } else {
        seq![CloseAction::SaveAndQuit] + close_run(first_close, tray.drop_first())
    }
}

/// Over the life of the window (starting with no close yet): a close with
/// the tray setting on hides the window, with the notice exactly when no
/// earlier close hid it; a close with the setting off saves and quits.
pub proof fn lemma_close_history(first_close: bool, tray: Seq<bool>)
    ensures
        close_run(first_close, tray).len() == tray.len(),
        forall|i: int|
            0 <= i < tray.len() ==> #[trigger] close_run(first_close, tray)[i] == (if tray[i] {
                CloseAction::HideToTray {
                    notice: first_close && forall|j: int| 0 <= j < i ==> !tray[j],
                }
            } else {
                CloseAction::SaveAndQuit
            }),
    decreases tray.len(),
{
    if tray.len() > 0 {
        let rest = tray.drop_first();
        let next = if tray[0] { false } else { first_close };
        lemma_close_history(next, rest);
        let r = close_run(first_close, tray);
        assert forall|i: int| 0 <= i < tray.len() implies #[trigger] r[i] == (if tray[i] {
            CloseAction::HideToTray { notice: first_close && forall|j: int| 0 <= j < i ==> !tray[j] }
        } else {
            CloseAction::SaveAndQuit
        }) by {
            if i > 0 {
                assert(r[i] == close_run(next, rest)[i - 1]);
                assert(rest[i - 1] == tray[i]);
                if tray[0] {
                    assert(!(forall|j: int| 0 <= j < i ==> !tray[j]));
                } else {
                    assert((forall|j: int| 0 <= j < i ==> !tray[j]) == (forall|j: int|
                        0 <= j < i - 1 ==> !rest[j])) by {
                        if forall|j: int| 0 <= j < i - 1 ==> !rest[j] {
                            assert forall|j: int| 0 <= j < i implies !tray[j] by {
                                if j > 0 {
                                    assert(tray[j] == rest[j - 1]);
                                }
                            }
                        }
                        if forall|j: int| 0 <= j < i ==> !tray[j] {
                            assert forall|j: int| 0 <= j < i - 1 implies !rest[j] by {
                                assert(rest[j] == tray[j + 1]);
                            }
                        }
                    }
                }
            }
        }
    }
}

} // verus!
