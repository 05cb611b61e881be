//! Network module state: which connection the bar shows.
use vstd::prelude::*;
use crate::text::{chars_of, chars_eq, has_prefix, starts_with, string_from_chars, trim, trim_chars};

verus! {

/// The connection the bar shows.
pub enum NetState {
    Wifi { ssid: String },
    Ethernet,
    Disconnected,
}

/// Whether the bar shows a connection, and the SSID when it is Wi-Fi.
pub open spec fn net_model(s: NetState) -> (bool, Option<Seq<char>>) {
    match s {
        NetState::Wifi { ssid } => (true, Some(ssid@)),
        NetState::Ethernet => (true, None),
        NetState::Disconnected => (false, None),
    }
}

fn net_eq(a: &NetState, b: &NetState) -> (r: bool)
    ensures
        r == (net_model(*a) == net_model(*b)),
{
    match (a, b) {
        (NetState::Wifi { ssid: x }, NetState::Wifi { ssid: y }) => {
            let xs = chars_of(x.as_str());
            let ys = chars_of(y.as_str());
            chars_eq(xs.as_slice(), ys.as_slice())
        },
        (NetState::Ethernet, NetState::Ethernet) => true,
        (NetState::Disconnected, NetState::Disconnected) => true,
        _ => false,
    }
}

/// Wi-Fi when an SSID is known, else Ethernet when a wired link is up,
/// else disconnected.
pub fn classify_network(ssid: Option<String>, ethernet_up: bool) -> (s: NetState)
    ensures
        net_model(s) == (match ssid {
            Some(x) => (true, Some(x@)),
            None => if ethernet_up { (true, None) } else { (false, None) },
        }),
{
    match ssid {
        Some(ssid) => NetState::Wifi { ssid },
        None => if ethernet_up { NetState::Ethernet } else { NetState::Disconnected },
    }
}

/// The SSID `iwgetid -r` printed: its trimmed output, when the command
/// succeeded and printed something.
pub fn ssid_from_output(success: bool, stdout: &str) -> (r: Option<String>)
    ensures
        r.deep_view() == (if success && trim(stdout@).len() > 0 { Some(trim(stdout@)) } else { None }),
{
    if !success {
        return None;
    }
    let cs = chars_of(stdout);
    let t = trim_chars(cs.as_slice());
    if t.len() == 0 {
        None
    } else {
        Some(string_from_chars(t.as_slice()))
    }
}

/// Interfaces that can carry a wired link: not loopback, not wireless
/// (`wl*`).
pub open spec fn spec_is_wired_candidate(name: Seq<char>) -> bool {
    name != "lo"@ && !has_prefix(name, "wl"@)
}

pub fn is_wired_candidate(name: &str) -> (b: bool)
    ensures
        b == spec_is_wired_candidate(name@),
{
    let n = chars_of(name);
    let lo = chars_of("lo");
    let wl = chars_of("wl");
    !chars_eq(n.as_slice(), lo.as_slice()) && !starts_with(n.as_slice(), wl.as_slice())
}

/// Whether an `operstate` attribute says the link is up.
pub fn operstate_is_up(content: &str) -> (b: bool)
    ensures
        b == (trim(content@) == "up"@),
{
    let cs = chars_of(content);
    let t = trim_chars(cs.as_slice());
    let up = chars_of("up");
    chars_eq(t.as_slice(), up.as_slice())
}

/// Whether any listed interface is a wired candidate whose `operstate`
/// (where readable) says `up`.
pub fn any_ethernet_up(ifaces: &Vec<(String, Option<String>)>) -> (b: bool)
    ensures
        b == exists|i: int| 0 <= i < ifaces@.len() && spec_is_wired_candidate((#[trigger] ifaces@[i]).0@)
            && ifaces@[i].1 is Some && trim(ifaces@[i].1.unwrap()@) == "up"@,
{
    let mut i: usize = 0;
    while i < ifaces.len()
        invariant
            i <= ifaces@.len(),
            forall|k: int| 0 <= k < i ==> !(spec_is_wired_candidate((#[trigger] ifaces@[k]).0@)
                && ifaces@[k].1 is Some && trim(ifaces@[k].1.unwrap()@) == "up"@),
        decreases ifaces@.len() - i,
    {
        let (name, state) = &ifaces[i];
        if is_wired_candidate(name.as_str()) {
            match state {
                Some(st) => {
                    if operstate_is_up(st.as_str()) {
                        return true;
                    }
                },
                None => {},
            }
        }
        i = i + 1;
    }
    false
}

/// The network module's state.
pub struct NetworkModule {
    state: NetState,
}

impl NetworkModule {
    pub closed spec fn spec_state(&self) -> NetState {
        self.state
    }

    pub fn with_state(state: NetState) -> (m: Self)
        ensures
            m.spec_state() == state,
    {
        NetworkModule { state }
    }

    pub fn state(&self) -> (s: &NetState)
        ensures
            *s == self.spec_state(),
    {
        &self.state
    }

    /// Take a new reading; returns whether the shown state changed.
    pub fn apply_reading(&mut self, state: NetState) -> (changed: bool)
        ensures
            changed == (net_model(old(self).spec_state()) != net_model(state)),
            changed ==> final(self).spec_state() == state,
            !changed ==> final(self).spec_state() == old(self).spec_state(),
    {
        let changed = !net_eq(&self.state, &state);
        if changed {
            self.state = state;
        }
        changed
    }
}

/// The glyph and label the bar shows for a connection.
pub fn net_label(s: &NetState) -> (r: (&'static str, String))
    ensures
        match *s {
            NetState::Wifi { ssid } => r.0@ == "\u{f0928}"@ && r.1@ == ssid@,
            NetState::Ethernet => r.0@ == "\u{f0200}"@ && r.1@ == "Eth"@,
            NetState::Disconnected => r.0@ == "\u{f092d}"@ && r.1@ == "Off"@,
        },
{
    match s {
        NetState::Wifi { ssid } => ("\u{f0928}", ssid.clone()),
        NetState::Ethernet => {
            let l = chars_of("Eth");
            ("\u{f0200}", string_from_chars(l.as_slice()))
        },
        NetState::Disconnected => {
            let l = chars_of("Off");
            ("\u{f092d}", string_from_chars(l.as_slice()))
        },
    }
}

} // verus!
