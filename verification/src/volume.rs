//! Volume module state: what `wpctl` / `pactl` report and how the bar shows it.
use vstd::prelude::*;
use crate::text::{
    chars_of, contains, has_substring, parse_unsigned, parse_unsigned_chars, split_chars, split_on,
    trim, trim_chars,
};

verus! {

/// Whether `wpctl get-volume` output reports the sink muted.
pub fn wpctl_muted(text: &str) -> (b: bool)
    ensures
        b == has_substring(text@, "[MUTED]"@),
{
    let t = chars_of(text);
    let m = chars_of("[MUTED]");
    contains(t.as_slice(), m.as_slice())
}

/// `s` without any trailing `%` signs.
pub open spec fn trim_end_percent(s: Seq<char>) -> Seq<char>
    decreases s.len(),
{
    if s.len() > 0 && s.last() == '%' { trim_end_percent(s.drop_last()) } else { s }
}

/// The volume percentage in `pactl get-sink-volume` output: the second
/// `/`-separated field, trimmed, trailing `%` removed, as a `u32`.
pub open spec fn spec_pactl_volume(text: Seq<char>) -> Option<nat> {
    let fields = split_on(text, '/');
    if fields.len() < 2 {
        None
    } else {
        parse_unsigned(trim_end_percent(trim(fields[1])), u32::MAX as nat)
    }
}

pub fn pactl_volume(text: &str) -> (r: Option<u32>)
    ensures
        match spec_pactl_volume(text@) {
            Some(v) => r == Some(v as u32),
            None => r is None,
        },
{
    let t = chars_of(text);
    let fields = split_chars(t.as_slice(), '/');
    if fields.len() < 2 {
        return None;
    }
    let mut f = trim_chars(fields[1].as_slice());
    let ghost tf = f@;
    while f.len() > 0 && f[f.len() - 1] == '%'
        invariant
            trim_end_percent(f@) == trim_end_percent(tf),
        decreases f@.len(),
    {
        let ghost before = f@;
        f.pop();
        assert(f@ =~= before.drop_last());
    }
    match parse_unsigned_chars(f.as_slice(), u32::MAX as u64) {
        Some(v) => Some(v as u32),
        None => None,
    }
}

/// Whether `pactl get-sink-mute` output says the sink is muted.
pub fn pactl_muted(text: &str) -> (b: bool)
    ensures
        b == has_substring(text@, "yes"@),
{
    let t = chars_of(text);
    let m = chars_of("yes");
    contains(t.as_slice(), m.as_slice())
}

/// The reading to show: `wpctl`'s when it answered, else `pactl`'s, else
/// no volume and not muted.
pub fn choose_reading(wpctl: Option<(Option<u32>, bool)>, pactl: Option<(Option<u32>, bool)>) -> (r: (Option<u32>, bool))
    ensures
        r == match wpctl {
            Some(w) => w,
            None => match pactl {
                Some(p) => p,
                None => (None, false),
            },
        },
{
    match wpctl {
        Some(w) => w,
        None => match pactl {
            Some(p) => p,
            None => (None, false),
        },
    }
}

/// The volume module's state.
pub struct VolumeModule {
    percent: Option<u32>,
    muted: bool,
}

impl VolumeModule {
    pub closed spec fn spec_percent(&self) -> Option<u32> {
        self.percent
    }

    pub closed spec fn spec_muted(&self) -> bool {
        self.muted
    }

    pub fn with_reading(percent: Option<u32>, muted: bool) -> (m: Self)
        ensures
            m.spec_percent() == percent,
            m.spec_muted() == muted,
    {
        VolumeModule { percent, muted }
    }

    pub fn percent(&self) -> (p: Option<u32>)
        ensures
            p == self.spec_percent(),
    {
        self.percent
    }

    pub fn is_muted(&self) -> (b: bool)
        ensures
            b == self.spec_muted(),
    {
        self.muted
    }

    /// Take a new reading; returns whether anything changed.
    pub fn apply_reading(&mut self, percent: Option<u32>, muted: bool) -> (changed: bool)
        ensures
            changed == (old(self).spec_percent() != percent || old(self).spec_muted() != muted),
            final(self).spec_percent() == percent,
            final(self).spec_muted() == muted,
    {
        let changed = self.percent != percent || self.muted != muted;
        if changed {
            self.percent = percent;
            self.muted = muted;
        }
        changed
    }
}

/// The glyph for a sink: muted, silent, up to half, or louder.
pub open spec fn spec_volume_icon(muted: bool, percent: u32) -> Seq<char> {
    if muted {
        "\u{f075f}"@
    } else if percent == 0 {
        "\u{f057f}"@
    } else if percent <= 50 {
        "\u{f0580}"@
    } else {
        "\u{f057e}"@
    }
}

pub fn volume_icon(muted: bool, percent: u32) -> (r: &'static str)
    ensures
        r@ == spec_volume_icon(muted, percent),
{
    if muted {
        "\u{f075f}"
    } else if percent == 0 {
        "\u{f057f}"
    } else if percent <= 50 {
        "\u{f0580}"
    } else {
        "\u{f057e}"
    }
}

} // verus!
