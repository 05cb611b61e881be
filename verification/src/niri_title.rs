//! Focused-window title tracking from niri's JSON event stream: the
//! window table, the focused id, and when a new title must be sent.
use std::collections::HashMap;
use vstd::prelude::*;
use crate::text::{chars_eq, chars_of};

verus! {

broadcast use vstd::std_specs::hash::group_hash_axioms;

/// A window as an event describes it; fields the event lacked are `None`.
pub struct NiriWindow {
    pub id: Option<u64>,
    pub title: Option<String>,
    pub is_focused: bool,
}

/// One `kind: payload` entry of an event-stream line.
pub enum NiriEvent {
    /// The full window list (empty when the payload had none).
    WindowsChanged(Vec<NiriWindow>),
    /// One window opened or changed; `None` when the payload had no window.
    WindowOpenedOrChanged(Option<NiriWindow>),
    WindowClosed(Option<u64>),
    WindowFocusChanged(Option<u64>),
    Other,
}

/// Titles by window id, the focused id, and the title last sent to the bar.
pub struct NiriTitleTracker {
    titles: HashMap<u64, String>,
    focused: Option<u64>,
    last_emitted: Option<String>,
}

/// The title map after a window-list entry.
pub open spec fn after_window(m: Map<u64, String>, w: NiriWindow) -> Map<u64, String> {
    match (w.id, w.title) {
        (Some(id), Some(t)) => m.insert(id, t),
        _ => m,
    }
}

/// The title map after a full window list, starting from `m`.
pub open spec fn titles_after(m: Map<u64, String>, ws: Seq<NiriWindow>) -> Map<u64, String>
    decreases ws.len(),
{
    if ws.len() == 0 { m } else { after_window(titles_after(m, ws.drop_last()), ws.last()) }
}

/// The focused id after a full window list: the id of the last entry
/// flagged focused (even an absent id), else unchanged.
pub open spec fn focus_after(f: Option<u64>, ws: Seq<NiriWindow>) -> Option<u64>
    decreases ws.len(),
{
    if ws.len() == 0 {
        f
    } else if ws.last().is_focused {
        ws.last().id
    } else {
        focus_after(f, ws.drop_last())
    }
}

impl NiriTitleTracker {
    pub closed spec fn titles(&self) -> Map<u64, String> {
        self.titles@
    }

    pub closed spec fn focused(&self) -> Option<u64> {
        self.focused
    }

    pub closed spec fn last_emitted(&self) -> Option<String> {
        self.last_emitted
    }

    /// The title of the focused window, if it is known.
    pub open spec fn current(&self) -> Option<String> {
        match self.focused() {
            Some(id) => if self.titles().contains_key(id) { Some(self.titles()[id]) } else { None },
            None => None,
        }
    }

    pub fn new() -> (t: Self)
        ensures
            t.titles() == Map::<u64, String>::empty(),
            t.focused() is None,
            t.last_emitted() is None,
    {
        NiriTitleTracker { titles: HashMap::new(), focused: None, last_emitted: None }
    }

    /// Apply one event entry.
    pub fn apply(&mut self, ev: NiriEvent)
        ensures
            final(self).last_emitted() == old(self).last_emitted(),
            match ev {
                NiriEvent::WindowsChanged(ws) => {
                    &&& final(self).titles() == titles_after(Map::empty(), ws@)
                    &&& final(self).focused() == focus_after(old(self).focused(), ws@)
                },
                NiriEvent::WindowOpenedOrChanged(Some(w)) => {
                    &&& final(self).titles() == after_window(old(self).titles(), w)
                    &&& final(self).focused() == (match (w.id, w.title) {
                        (Some(id), Some(_)) => if w.is_focused { Some(id) } else { old(self).focused() },
                        _ => old(self).focused(),
                    })
                },
                NiriEvent::WindowClosed(Some(id)) => {
                    &&& final(self).titles() == old(self).titles().remove(id)
                    &&& final(self).focused() == (if old(self).focused() == Some(id) { None } else { old(self).focused() })
                },
                NiriEvent::WindowFocusChanged(f) => {
                    &&& final(self).titles() == old(self).titles()
                    &&& final(self).focused() == f
                },
                _ => {
                    &&& final(self).titles() == old(self).titles()
                    &&& final(self).focused() == old(self).focused()
                },
            },
    {
        match ev {
            NiriEvent::WindowsChanged(ws) => {
                self.titles.clear();
                let mut i: usize = 0;
                assert(ws@.take(0) =~= Seq::<NiriWindow>::empty());
                while i < ws.len()
                    invariant
                        i <= ws@.len(),
                        self.titles@ == titles_after(Map::empty(), ws@.take(i as int)),
                        self.focused == focus_after(old(self).focused, ws@.take(i as int)),
                        self.last_emitted == old(self).last_emitted,
                    decreases ws@.len() - i,
                {
                    let w = &ws[i];
                    match (w.id, &w.title) {
                        (Some(id), Some(t)) => {
                            self.titles.insert(id, t.clone());
                        },
                        _ => {},
                    }
                    if w.is_focused {
                        self.focused = w.id;
                    }
                    i = i + 1;
                    assert(ws@.take(i as int).drop_last() =~= ws@.take(i - 1));
                }
                assert(ws@.take(i as int) =~= ws@);
            },
            NiriEvent::WindowOpenedOrChanged(Some(w)) => {
                match (w.id, w.title) {
                    (Some(id), Some(t)) => {
                        self.titles.insert(id, t);
                        if w.is_focused {
                            self.focused = Some(id);
                        }
                    },
                    _ => {},
                }
            },
            NiriEvent::WindowClosed(Some(id)) => {
                self.titles.remove(&id);
                if self.focused == Some(id) {
                    self.focused = None;
                }
            },
            NiriEvent::WindowFocusChanged(f) => {
                self.focused = f;
            },
            _ => {},
        }
    }

    /// Called after each line: the title to send when it differs from the
    /// last one sent (`Some(title)`), or `None` when nothing changed.
    pub fn end_of_line(&mut self) -> (emit: Option<Option<String>>)
        ensures
            final(self).titles() == old(self).titles(),
            final(self).focused() == old(self).focused(),
            final(self).last_emitted().deep_view() == old(self).current().deep_view(),
            emit is Some <==> old(self).current().deep_view() != old(self).last_emitted().deep_view(),
            emit is Some ==> emit.unwrap().deep_view() == old(self).current().deep_view(),
    {
        let current: Option<String> = match self.focused {
            Some(id) => match self.titles.get(&id) {
                Some(t) => Some(t.clone()),
                None => None,
            },
            None => None,
        };
        let same = match (&current, &self.last_emitted) {
            (Some(a), Some(b)) => {
                let x = chars_of(a.as_str());
                let y = chars_of(b.as_str());
                chars_eq(x.as_slice(), y.as_slice())
            },
            (None, None) => true,
            _ => false,
        };
        if same {
            proof {
                if current is Some {
                    assert(current.deep_view() == self.last_emitted.deep_view());
                }
            }
            self.last_emitted = current;
            None
        } else {
            let out = match &current {
                Some(t) => Some(t.clone()),
                None => None,
            };
            self.last_emitted = current;
            Some(out)
        }
    }
}

/// Two `end_of_line` calls in a row send at most once: the state the
/// first call leaves (same windows and focus, the current title recorded
/// as sent) makes the second call send nothing.
pub proof fn law_no_repeated_emission(before: NiriTitleTracker, after: NiriTitleTracker)
    requires
        after.titles() == before.titles(),
        after.focused() == before.focused(),
        after.last_emitted().deep_view() == before.current().deep_view(),
    ensures
        after.current().deep_view() == after.last_emitted().deep_view(),
{
}

} // verus!
