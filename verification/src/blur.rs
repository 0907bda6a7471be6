//! Whether the window's glass is blurred, and how to say so in Settings.
//!
//! Asking the compositor for the blur is the application's business; what
//! came of asking is kept here.

use vstd::prelude::*;

use crate::text::push_str;

verus! {

/// What came of asking.
#[derive(PartialEq, Eq, Debug)]
pub enum State {
    Untried,
    /// Live, with the name of the backend that did it.
    On(&'static str),
    /// Not available, with something short enough to show in Settings.
    Off(String),
}

impl Default for State {
    fn default() -> (r: State)
        ensures
            r is Untried,
    {
        State::Untried
    }
}

impl State {
    pub fn is_on(&self) -> (r: bool)
        ensures
            r == self is On,
    {
        match self {
            State::On(_) => true,
            _ => false,
        }
    }

    /// The state in words, for Settings.
    pub fn describe(&self) -> (r: String)
        ensures
            r@ == (match self {
                State::Untried => "not asked for yet"@,
                State::On(how) => "on, via "@ + how@,
                State::Off(why) => "off \u{2014} "@ + why@,
            }),
    {
        let mut out: Vec<char> = Vec::new();
        match self {
            State::Untried => push_str(&mut out, "not asked for yet"),
            State::On(how) => {
                push_str(&mut out, "on, via ");
                push_str(&mut out, how);
            },
            State::Off(why) => {
                push_str(&mut out, "off \u{2014} ");
                push_str(&mut out, why.as_str());
            },
        }
        proof {
            assert(Seq::<char>::empty() + "not asked for yet"@ =~= "not asked for yet"@);
            assert(Seq::<char>::empty() + "on, via "@ =~= "on, via "@);
            assert(Seq::<char>::empty() + "off \u{2014} "@ =~= "off \u{2014} "@);
        }
        crate::text::string_of(out.as_slice())
    }
}

/// The blur as the window keeps it: what came of asking. The handles the
/// windowing system needs kept alive are the application's.
pub struct Blur {
    pub state: State,
}

/// What came of asking X11 for the blur behind the window: on, via KWin's
/// region property, or off with the reason the attempt gave.
pub fn set(attempt: Result<(), String>) -> (r: State)
    ensures
        match attempt {
            Ok(()) => r matches State::On(how) && how@ == "_KDE_NET_WM_BLUR_BEHIND_REGION"@,
            Err(e) => r matches State::Off(why) && why@ == e@,
        },
{
    match attempt {
        Ok(()) => State::On("_KDE_NET_WM_BLUR_BEHIND_REGION"),
        Err(e) => State::Off(e),
    }
}

/// What the session says it is, for the Settings panel, from the session
/// type (`x11`, `wayland`) and the desktop's name, either of which may be
/// missing.
pub open spec fn session_words(kind: Seq<char>, desktop: Seq<char>) -> Seq<char> {
    if kind.len() == 0 && desktop.len() == 0 {
        "unknown session"@
    } else if kind.len() == 0 {
        desktop
    } else if desktop.len() == 0 {
        kind
    } else {
        desktop + " on "@ + kind
    }
}

pub fn session_label(kind: &str, desktop: &str) -> (r: String)
    ensures
        r@ == session_words(kind@, desktop@),
{
    let k = kind.unicode_len();
    let d = desktop.unicode_len();
    if k == 0 && d == 0 {
        return "unknown session".to_owned();
    }
    if k == 0 {
        return desktop.to_owned();
    }
    if d == 0 {
        return kind.to_owned();
    }
    let mut out: Vec<char> = Vec::new();
    push_str(&mut out, desktop);
    push_str(&mut out, " on ");
    push_str(&mut out, kind);
    proof {
        assert(Seq::<char>::empty() + desktop@ =~= desktop@);
    }
    crate::text::string_of(out.as_slice())
}

} // verus!
