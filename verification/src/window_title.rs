//! The focused-window title pill: where titles come from, and what the
//! pill shows.
use vstd::prelude::*;
use crate::text::string_from_chars;

verus! {

/// Where focused-window titles come from.
#[derive(PartialEq, Eq, Structural, Clone, Copy, Debug)]
pub enum TitleSource {
    /// The sway IPC socket.
    Sway,
    /// `niri msg --json event-stream`.
    Niri,
    /// No supported compositor; the pill stays empty.
    NoSource,
}

/// Pick the title source from two probes: a sway socket named by
/// `SWAYSOCK` that accepts a connection wins, then a `niri msg version`
/// that succeeds.
pub fn choose_title_source(sway_socket_connects: bool, niri_responds: bool) -> (r: TitleSource)
    ensures
        r == (if sway_socket_connects {
            TitleSource::Sway
        } else if niri_responds {
            TitleSource::Niri
        } else {
            TitleSource::NoSource
        }),
{
    if sway_socket_connects {
        TitleSource::Sway
    } else if niri_responds {
        TitleSource::Niri
    } else {
        TitleSource::NoSource
    }
}

/// The pill's state: the focused window's title, if any.
pub struct WindowTitleModule {
    title: Option<String>,
}

impl WindowTitleModule {
    /// The title held, by its characters.
    pub closed spec fn spec_title(&self) -> Option<Seq<char>> {
        match self.title {
            Some(t) => Some(t@),
            None => None,
        }
    }

    /// An empty pill, as every source starts.
    pub fn new() -> (m: Self)
        ensures
            m.spec_title() == None::<Seq<char>>,
    {
        WindowTitleModule { title: None }
    }

    /// Take a title sent by the session (`None`: nothing focused).
    pub fn set_title(&mut self, title: Option<String>)
        ensures
            final(self).spec_title() == (match title {
                Some(t) => Some(t@),
                None => None::<Seq<char>>,
            }),
    {
        self.title = title;
    }

    /// The text shown: the title, or nothing.
    pub fn display_text(&self) -> (r: String)
        ensures
            r@ == (match self.spec_title() {
                Some(t) => t,
                None => Seq::<char>::empty(),
            }),
    {
        match &self.title {
            Some(t) => t.clone(),
            None => string_from_chars(&[]),
        }
    }
}

} // verus!
