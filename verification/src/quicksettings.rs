//! Quick-settings panel logic: `nmcli` / `rfkill` output, Wi-Fi list
//! ordering, toggle state and the panel's short Chinese time strings.
use vstd::prelude::*;
use crate::sort::{
    is_sorted, lemma_sorted_multiset, lemma_sorted_stable_is_sorted, sort_stable, sorted_stable,
    strict_weak_on, Ranked,
};
use crate::text::{
    chars_eq, chars_of, contains, dec_string, has_substring, lines, lines_of, parse_unsigned,
    parse_unsigned_chars, push_all, push_decimal, string_from_chars, trim, trim_chars, views,
};

verus! {

/// The columns of one `nmcli -t` line after `line.split(':')` would be
/// wrong: a backslash escapes the next character (the escape itself is
/// dropped, as is a lone trailing backslash), and only bare `:` separate.
pub open spec fn nmcli_cols(s: Seq<char>, buf: Seq<char>) -> Seq<Seq<char>>
    decreases s.len(),
{
    if s.len() == 0 {
        seq![buf]
    } else if s[0] == '\\' {
        if s.len() >= 2 { nmcli_cols(s.skip(2), buf.push(s[1])) } else { seq![buf] }
    } else if s[0] == ':' {
        seq![buf] + nmcli_cols(s.drop_first(), Seq::empty())
    } else {
        nmcli_cols(s.drop_first(), buf.push(s[0]))
    }
}

/// How `nmcli -t` writes one field: every colon and backslash is escaped with a
/// backslash.
pub open spec fn nmcli_escape(f: Seq<char>) -> Seq<char>
    decreases f.len(),
{
    if f.len() == 0 {
        Seq::empty()
    } else {
        (if f[0] == ':' || f[0] == '\\' { seq!['\\', f[0]] } else { seq![f[0]] }) + nmcli_escape(f.drop_first())
    }
}

/// A line of fields as `nmcli -t` writes it: escaped, joined by `:`.
pub open spec fn nmcli_join(fs: Seq<Seq<char>>) -> Seq<char>
    decreases fs.len(),
{
    if fs.len() <= 1 {
        if fs.len() == 0 { Seq::empty() } else { nmcli_escape(fs[0]) }
    } else {
        nmcli_escape(fs[0]) + seq![':'] + nmcli_join(fs.drop_first())
    }
}

proof fn lemma_nmcli_field(f: Seq<char>, rest: Seq<char>, buf: Seq<char>)
    ensures
        nmcli_cols(nmcli_escape(f) + rest, buf) == nmcli_cols(rest, buf + f),
    decreases f.len(),
{
    if f.len() == 0 {
        assert(nmcli_escape(f) + rest =~= rest);
        assert(buf + f =~= buf);
    } else {
        let c = f[0];
        let t = f.drop_first();
        lemma_nmcli_field(t, rest, buf.push(c));
        assert(buf.push(c) + t =~= buf + f);
        let s = nmcli_escape(f) + rest;
        if c == ':' || c == '\\' {
            assert(s =~= seq!['\\', c] + (nmcli_escape(t) + rest));
            assert(s.skip(2) =~= nmcli_escape(t) + rest);
        } else {
            assert(s =~= seq![c] + (nmcli_escape(t) + rest));
            assert(s.drop_first() =~= nmcli_escape(t) + rest);
        }
    }
}

/// Splitting gives back the fields that `nmcli -t` wrote, whatever colons or
/// backslashes they hold: an escaped colon never splits a field.
pub proof fn law_nmcli_split_roundtrip(fs: Seq<Seq<char>>)
    requires
        fs.len() >= 1,
    ensures
        nmcli_cols(nmcli_join(fs), Seq::empty()) == fs,
    decreases fs.len(),
{
    if fs.len() == 1 {
        lemma_nmcli_field(fs[0], Seq::empty(), Seq::empty());
        assert(nmcli_escape(fs[0]) + Seq::<char>::empty() =~= nmcli_escape(fs[0]));
        assert(Seq::<char>::empty() + fs[0] =~= fs[0]);
        assert(seq![fs[0]] =~= fs);
    } else {
        let rest = fs.drop_first();
        law_nmcli_split_roundtrip(rest);
        lemma_nmcli_field(fs[0], seq![':'] + nmcli_join(rest), Seq::empty());
        assert(nmcli_escape(fs[0]) + seq![':'] + nmcli_join(rest)
            =~= nmcli_escape(fs[0]) + (seq![':'] + nmcli_join(rest)));
        assert(Seq::<char>::empty() + fs[0] =~= fs[0]);
        let s = seq![':'] + nmcli_join(rest);
        assert(s.drop_first() =~= nmcli_join(rest));
        assert(seq![fs[0]] + rest =~= fs);
    }
}

/// Split one line of `nmcli -t` output into its columns.
pub fn split_nmcli_columns(line: &str) -> (cols: Vec<String>)
    ensures
        cols@.map_values(|c: String| c@) == nmcli_cols(line@, Seq::empty()),
{
    let s = chars_of(line);
    let mut cols: Vec<String> = Vec::new();
    let mut buf: Vec<char> = Vec::new();
    let mut i: usize = 0;
    assert(s@.skip(0) =~= s@);
    while i < s.len()
        invariant
            i <= s@.len(),
            s@ == line@,
            cols@.map_values(|c: String| c@) + nmcli_cols(s@.skip(i as int), buf@)
                == nmcli_cols(s@, Seq::empty()),
        decreases s@.len() - i,
    {
        let c = s[i];
        let ghost rest = s@.skip(i as int);
        assert(rest[0] == c);
        if c == '\\' {
            if i + 1 < s.len() {
                let n = s[i + 1];
                assert(rest[1] == n);
                assert(rest.skip(2) =~= s@.skip(i + 2));
                buf.push(n);
                i = i + 2;
            } else {
                assert(s@.skip(s@.len() as int) =~= Seq::<char>::empty());
                i = s.len();
            }
        } else if c == ':' {
            let ghost old_cols = cols@.map_values(|c: String| c@);
            let col = string_from_chars(buf.as_slice());
            cols.push(col);
            buf = Vec::new();
            assert(rest.drop_first() =~= s@.skip(i + 1));
            assert(cols@.map_values(|c: String| c@) =~= old_cols.push(col@));
            assert(old_cols.push(col@) + nmcli_cols(s@.skip(i + 1), buf@)
                =~= old_cols + (seq![col@] + nmcli_cols(s@.skip(i + 1), Seq::empty())));
            i = i + 1;
        } else {
            buf.push(c);
            assert(rest.drop_first() =~= s@.skip(i + 1));
            i = i + 1;
        }
    }
    let ghost old_cols = cols@.map_values(|c: String| c@);
    let last = string_from_chars(buf.as_slice());
    cols.push(last);
    assert(cols@.map_values(|c: String| c@) =~= old_cols.push(last@));
    assert(old_cols + nmcli_cols(s@.skip(i as int), buf@) =~= old_cols.push(buf@));
    cols
}

/// Signal bars for a signal percentage: three from 70 to 100, two from
/// 40 to 69, one otherwise.
pub fn signal_bars(percent: u8) -> (b: u8)
    ensures
        b == if 70 <= percent <= 100 { 3u8 } else if 40 <= percent <= 69 { 2u8 } else { 1u8 },
{
    if 70 <= percent && percent <= 100 {
        3
    } else if 40 <= percent && percent <= 69 {
        2
    } else {
        1
    }
}

/// One network of the Wi-Fi list.
pub struct WifiEntry {
    pub ssid: String,
    pub signal: u8,
    pub secured: bool,
    pub connected: bool,
}

/// The abstract content of a [`WifiEntry`].
pub struct WifiEntryView {
    pub ssid: Seq<char>,
    pub signal: u8,
    pub secured: bool,
    pub connected: bool,
}

impl View for WifiEntry {
    type V = WifiEntryView;

    open spec fn view(&self) -> WifiEntryView {
        WifiEntryView { ssid: self.ssid@, signal: self.signal, secured: self.secured, connected: self.connected }
    }
}

/// The connected network first, then by signal, strongest first.
impl Ranked for WifiEntry {
    open spec fn spec_before(&self, other: &Self) -> bool {
        (self.connected && !other.connected) || (self.connected == other.connected && self.signal > other.signal)
    }

    fn before(&self, other: &Self) -> (b: bool) {
        if self.connected != other.connected {
            self.connected
        } else {
            self.signal > other.signal
        }
    }
}

/// The network a line of `nmcli -t -f IN-USE,SSID,SIGNAL,SECURITY device
/// wifi list` describes: needs four columns and a non-blank SSID; a
/// signal that does not parse counts as 0; `--` or blank security means
/// an open network.
pub open spec fn wifi_entry_of(line: Seq<char>) -> Option<WifiEntryView> {
    let cols = nmcli_cols(line, Seq::empty());
    if cols.len() < 4 || trim(cols[1]).len() == 0 {
        None
    } else {
        let sec = trim(cols[3]);
        Some(WifiEntryView {
            ssid: trim(cols[1]),
            signal: match parse_unsigned(trim(cols[2]), 255) { Some(v) => v as u8, None => 0u8 },
            secured: sec.len() > 0 && sec != "--"@,
            connected: trim(cols[0]) == "*"@,
        })
    }
}

/// The networks of a list of lines, in order.
pub open spec fn wifi_entries(ls: Seq<Seq<char>>) -> Seq<WifiEntryView>
    decreases ls.len(),
{
    if ls.len() == 0 {
        Seq::empty()
    } else {
        match wifi_entry_of(ls.last()) {
            Some(e) => wifi_entries(ls.drop_last()).push(e),
            None => wifi_entries(ls.drop_last()),
        }
    }
}

fn wifi_entry_exec(line: &Vec<char>) -> (r: Option<WifiEntry>)
    ensures
        match wifi_entry_of(line@) {
            Some(e) => r is Some && r.unwrap()@ == e,
            None => r is None,
        },
{
    let l = string_from_chars(line.as_slice());
    let cols = split_nmcli_columns(l.as_str());
    if cols.len() < 4 {
        return None;
    }
    let c0 = chars_of(cols[0].as_str());
    let c1 = chars_of(cols[1].as_str());
    let c2 = chars_of(cols[2].as_str());
    let c3 = chars_of(cols[3].as_str());
    let ssid = trim_chars(c1.as_slice());
    if ssid.len() == 0 {
        return None;
    }
    let star = chars_of("*");
    let t0 = trim_chars(c0.as_slice());
    let connected = chars_eq(t0.as_slice(), star.as_slice());
    let t2 = trim_chars(c2.as_slice());
    let signal: u8 = match parse_unsigned_chars(t2.as_slice(), 255) {
        Some(v) => v as u8,
        None => 0,
    };
    let t3 = trim_chars(c3.as_slice());
    let dashes = chars_of("--");
    let secured = t3.len() > 0 && !chars_eq(t3.as_slice(), dashes.as_slice());
    Some(WifiEntry { ssid: string_from_chars(ssid.as_slice()), signal, secured, connected })
}

/// The networks `nmcli` listed, in output order.
pub fn parse_wifi_list(text: &str) -> (r: Vec<WifiEntry>)
    ensures
        r@.map_values(|e: WifiEntry| e@) == wifi_entries(lines(text@)),
{
    let cs = chars_of(text);
    let ls = lines_of(cs.as_slice());
    let mut out: Vec<WifiEntry> = Vec::new();
    let mut i: usize = 0;
    while i < ls.len()
        invariant
            i <= ls@.len(),
            views(ls@) == lines(text@),
            out@.map_values(|e: WifiEntry| e@) == wifi_entries(views(ls@).take(i as int)),
        decreases ls@.len() - i,
    {
        let ghost before = out@.map_values(|e: WifiEntry| e@);
        let ghost pre = views(ls@).take(i as int);
        let e = wifi_entry_exec(&ls[i]);
        assert(views(ls@)[i as int] == ls@[i as int]@);
        i = i + 1;
        assert(views(ls@).take(i as int).drop_last() =~= pre);
        match e {
            Some(e) => {
                out.push(e);
                assert(out@.map_values(|e: WifiEntry| e@) =~= before.push(e@));
            },
            None => {},
        }
    }
    assert(views(ls@).take(i as int) =~= views(ls@));
    out
}

/// Order the list: the connected network first, then strongest signal
/// first (a stable sort).
pub fn sort_wifi(entries: Vec<WifiEntry>) -> (r: Vec<WifiEntry>)
    ensures
        r@ == sorted_stable(entries@),
{
    sort_stable(entries)
}

/// `nmcli -t radio wifi` prints `enabled` when the radio is on.
pub fn wifi_enabled_from_output(stdout: &str) -> (b: bool)
    ensures
        b == (trim(stdout@) == "enabled"@),
{
    let cs = chars_of(stdout);
    let t = trim_chars(cs.as_slice());
    let e = chars_of("enabled");
    chars_eq(t.as_slice(), e.as_slice())
}

/// `rfkill list -no SOFT <kind>` output: unknown when blank, else whether
/// it says `unblocked`.
pub fn rfkill_unblocked_from_output(stdout: &str) -> (r: Option<bool>)
    ensures
        r == (if trim(stdout@).len() == 0 { None } else { Some(has_substring(stdout@, "unblocked"@)) }),
{
    let cs = chars_of(stdout);
    let t = trim_chars(cs.as_slice());
    if t.len() == 0 {
        return None;
    }
    let u = chars_of("unblocked");
    Some(contains(cs.as_slice(), u.as_slice()))
}

/// A line of `rfkill` output that reports a blocked device.
pub open spec fn line_blocked(l: Seq<char>) -> bool {
    has_substring(l, "blocked"@) && !has_substring(l, "unblocked"@)
}

/// `rfkill list -no SOFT` output: unknown with no devices, else whether
/// every (non-blank) line reports a blocked device.
pub open spec fn spec_all_blocked(text: Seq<char>) -> Option<bool> {
    let ls = lines(text).filter(|l: Seq<char>| trim(l).len() > 0);
    if ls.len() == 0 {
        None
    } else {
        Some(forall|i: int| 0 <= i < ls.len() ==> line_blocked(#[trigger] ls[i]))
    }
}

pub fn rfkill_all_blocked_from_output(stdout: &str) -> (r: Option<bool>)
    ensures
        r == spec_all_blocked(stdout@),
{
    let cs = chars_of(stdout);
    let ls = lines_of(cs.as_slice());
    let b = chars_of("blocked");
    let u = chars_of("unblocked");
    let ghost all = lines(stdout@);
    let ghost f = |l: Seq<char>| trim(l).len() > 0;
    let mut any = false;
    let mut all_blocked = true;
    let mut i: usize = 0;
    while i < ls.len()
        invariant
            i <= ls@.len(),
            views(ls@) == all,
            all == lines(stdout@),
            b@ == "blocked"@,
            u@ == "unblocked"@,
            f == (|l: Seq<char>| trim(l).len() > 0),
            any == (all.take(i as int).filter(f).len() > 0),
            all_blocked == (forall|k: int| 0 <= k < all.take(i as int).filter(f).len()
                ==> line_blocked(#[trigger] all.take(i as int).filter(f)[k])),
        decreases ls@.len() - i,
    {
        let l = &ls[i];
        let ghost pre = all.take(i as int);
        let ghost post = all.take(i + 1);
        assert(post.drop_last() =~= pre);
        assert(post.last() == l@);
        proof {
            reveal(Seq::filter);
        }
        let t = trim_chars(l.as_slice());
        if t.len() > 0 {
            assert(post.filter(f) == pre.filter(f).push(l@));
            any = true;
            let blk = contains(l.as_slice(), b.as_slice()) && !contains(l.as_slice(), u.as_slice());
            assert(blk == line_blocked(l@));
            proof {
                let pf = pre.filter(f);
                let qf = post.filter(f);
                assert(qf == pf.push(l@));
                let lhs = forall|k: int| 0 <= k < qf.len() ==> line_blocked(#[trigger] qf[k]);
                let rhs = (forall|k: int| 0 <= k < pf.len() ==> line_blocked(#[trigger] pf[k])) && line_blocked(l@);
                if lhs {
                    assert forall|k: int| 0 <= k < pf.len() implies line_blocked(#[trigger] pf[k]) by {
                        assert(qf[k] == pf[k]);
                    }
                    assert(qf[pf.len() as int] == l@);
                }
                if rhs {
                    assert forall|k: int| 0 <= k < qf.len() implies line_blocked(#[trigger] qf[k]) by {
                        if k < pf.len() {
                            assert(qf[k] == pf[k]);
                        }
                    }
                }
                assert(lhs == rhs);
            }
            all_blocked = all_blocked && blk;
        } else {
            assert(post.filter(f) == pre.filter(f));
        }
        i = i + 1;
    }
    assert(all.take(i as int) =~= all);
    if !any { None } else { Some(all_blocked) }
}

/// One of the panel's toggle pills.
#[derive(Clone, Copy, PartialEq, Eq, Debug)]
pub enum Pill {
    Wifi,
    Bluetooth,
    Airplane,
    NightLight,
}

/// The pills after a click: the clicked one flips; switching airplane mode on
/// forces Wi-Fi and Bluetooth off, switching it off leaves them as they were.
pub open spec fn spec_toggle(p: PillsState, pill: Pill) -> PillsState {
    match pill {
        Pill::Wifi => PillsState { wifi: !p.wifi, ..p },
        Pill::Bluetooth => PillsState { bluetooth: !p.bluetooth, ..p },
        Pill::NightLight => PillsState { night_light: !p.night_light, ..p },
        Pill::Airplane => PillsState {
            wifi: if !p.airplane { false } else { p.wifi },
            bluetooth: if !p.airplane { false } else { p.bluetooth },
            airplane: !p.airplane,
            night_light: p.night_light,
        },
    }
}

/// Whether some interface is a wireless one that is up: `links` holds, per
/// interface, whether it is wireless and whether its operational state is up.
pub open spec fn spec_wifi_on(links: Seq<(bool, bool)>) -> bool {
    exists|i: int| 0 <= i < links.len() && #[trigger] links[i].0 && links[i].1
}

/// Whether the cluster shows Wi-Fi as connected.
pub fn wifi_on(links: &Vec<(bool, bool)>) -> (b: bool)
    ensures
        b == spec_wifi_on(links@),
{
    let mut i: usize = 0;
    while i < links.len()
        invariant
            i <= links.len(),
            forall|j: int| 0 <= j < i ==> !(#[trigger] links@[j].0 && links@[j].1),
        decreases links.len() - i,
    {
        if links[i].0 && links[i].1 {
            return true;
        }
        i = i + 1;
    }
    false
}

/// The cluster's Wi-Fi glyph.
pub open spec fn spec_cluster_wifi_icon(on: bool) -> Seq<char> {
    if on { "\u{f05a9}"@ } else { "\u{f05aa}"@ }
}

/// The cluster's Wi-Fi glyph: connected or not.
pub fn cluster_wifi_icon(on: bool) -> (r: &'static str)
    ensures
        r@ == spec_cluster_wifi_icon(on),
{
    if on { "\u{f05a9}" } else { "\u{f05aa}" }
}

/// The four toggle pills of the panel.
#[derive(Clone, Copy)]
pub struct PillsState {
    pub wifi: bool,
    pub bluetooth: bool,
    pub airplane: bool,
    pub night_light: bool,
}

impl PillsState {
    /// Pills from the system probes; an unanswered probe shows Wi-Fi and
    /// Bluetooth on and airplane mode off.
    pub fn from_probes(wifi: Option<bool>, bluetooth: Option<bool>, airplane: Option<bool>, night_light: bool) -> (p: Self)
        ensures
            p.wifi == match wifi { Some(v) => v, None => true },
            p.bluetooth == match bluetooth { Some(v) => v, None => true },
            p.airplane == match airplane { Some(v) => v, None => false },
            p.night_light == night_light,
    {
        PillsState {
            wifi: match wifi { Some(v) => v, None => true },
            bluetooth: match bluetooth { Some(v) => v, None => true },
            airplane: match airplane { Some(v) => v, None => false },
            night_light,
        }
    }

    /// The pills after a click on `pill`: that pill flips, and airplane mode
    /// being switched on also switches Wi-Fi and Bluetooth off.
    pub fn toggle(&self, pill: Pill) -> (p: Self)
        ensures
            p == spec_toggle(*self, pill),
    {
        match pill {
            Pill::Wifi => PillsState { wifi: !self.wifi, ..*self },
            Pill::Bluetooth => PillsState { bluetooth: !self.bluetooth, ..*self },
            Pill::NightLight => PillsState { night_light: !self.night_light, ..*self },
            Pill::Airplane => {
                let airplane = !self.airplane;
                PillsState {
                    wifi: if airplane { false } else { self.wifi },
                    bluetooth: if airplane { false } else { self.bluetooth },
                    airplane,
                    night_light: self.night_light,
                }
            },
        }
    }

    /// Whether every pill is in the same state.
    pub fn matches(&self, other: &Self) -> (b: bool)
        ensures
            b == (self.wifi == other.wifi && self.bluetooth == other.bluetooth
                && self.airplane == other.airplane && self.night_light == other.night_light),
    {
        self.wifi == other.wifi && self.bluetooth == other.bluetooth && self.airplane == other.airplane
            && self.night_light == other.night_light
    }
}

/// "约 {h} 小时 {m} 分钟" with either part left out when zero; `None`
/// under a minute.
pub open spec fn spec_fmt_duration_zh(secs: u64) -> Option<Seq<char>> {
    let total = secs / 60;
    let h = total / 60;
    let m = total % 60;
    if total == 0 {
        None
    } else if h == 0 {
        Some("约 "@ + dec_string(m as nat) + " 分钟"@)
    } else if m == 0 {
        Some("约 "@ + dec_string(h as nat) + " 小时"@)
    } else {
        Some("约 "@ + dec_string(h as nat) + " 小时 "@ + dec_string(m as nat) + " 分钟"@)
    }
}

/// Remaining battery time as the panel shows it, from whole seconds.
pub fn fmt_duration_zh(secs: u64) -> (r: Option<String>)
    ensures
        r.deep_view() == spec_fmt_duration_zh(secs),
{
    let total = secs / 60;
    if total == 0 {
        return None;
    }
    let h = total / 60;
    let m = total % 60;
    let mut out = chars_of("约 ");
    if h == 0 {
        push_decimal(&mut out, m);
        let t = chars_of(" 分钟");
        push_all(&mut out, t.as_slice());
    } else if m == 0 {
        push_decimal(&mut out, h);
        let t = chars_of(" 小时");
        push_all(&mut out, t.as_slice());
    } else {
        push_decimal(&mut out, h);
        let t = chars_of(" 小时 ");
        push_all(&mut out, t.as_slice());
        push_decimal(&mut out, m);
        let t2 = chars_of(" 分钟");
        push_all(&mut out, t2.as_slice());
    }
    Some(string_from_chars(out.as_slice()))
}

/// Two-digit zero-padded rendering of `n < 100`.
pub open spec fn two_digits(n: nat) -> Seq<char> {
    if n < 10 { seq!['0'] + dec_string(n) } else { dec_string(n) }
}

pub(crate) fn push_two_digits(out: &mut Vec<char>, n: u32)
    requires
        n < 100,
    ensures
        final(out)@ == old(out)@ + two_digits(n as nat),
{
    if n < 10 {
        out.push('0');
        push_decimal(out, n as u64);
        assert(final(out)@ =~= old(out)@ + two_digits(n as nat));
    } else {
        push_decimal(out, n as u64);
    }
}

/// Weekday names, Sunday first.
pub open spec fn weekday_zh(d: int) -> Seq<char> {
    if d == 0 { "周日"@ } else if d == 1 { "周一"@ } else if d == 2 { "周二"@ }
    else if d == 3 { "周三"@ } else if d == 4 { "周四"@ } else if d == 5 { "周五"@ } else { "周六"@ }
}

fn weekday_zh_exec(d: u32) -> (r: &'static str)
    requires
        d < 7,
    ensures
        r@ == weekday_zh(d as int),
{
    if d == 0 { "周日" } else if d == 1 { "周一" } else if d == 2 { "周二" }
    else if d == 3 { "周三" } else if d == 4 { "周四" } else if d == 5 { "周五" } else { "周六" }
}

/// The cluster clock: weekday, then `HH:MM`.
pub fn fmt_clock_short(weekday_from_sunday: u32, hour: u32, minute: u32) -> (r: String)
    requires
        weekday_from_sunday < 7,
        hour < 24,
        minute < 60,
    ensures
        r@ == weekday_zh(weekday_from_sunday as int) + " "@ + two_digits(hour as nat) + ":"@
            + two_digits(minute as nat),
{
    let mut out = chars_of(weekday_zh_exec(weekday_from_sunday));
    let sp = chars_of(" ");
    push_all(&mut out, sp.as_slice());
    push_two_digits(&mut out, hour);
    let colon = chars_of(":");
    push_all(&mut out, colon.as_slice());
    push_two_digits(&mut out, minute);
    string_from_chars(out.as_slice())
}

/// Day `d` of the week, counted from Sunday, is shown as the `d`-th of
/// 周日, 周一, 周二, 周三, 周四, 周五, 周六, and no two days share a name.
pub proof fn law_weekday_names(d: int, e: int)
    requires
        0 <= d < 7,
        0 <= e < 7,
    ensures
        weekday_zh(d) == seq!["周日"@, "周一"@, "周二"@, "周三"@, "周四"@, "周五"@, "周六"@][d],
        d != e ==> weekday_zh(d) != weekday_zh(e),
{
    reveal_strlit("周日");
    reveal_strlit("周一");
    reveal_strlit("周二");
    reveal_strlit("周三");
    reveal_strlit("周四");
    reveal_strlit("周五");
    reveal_strlit("周六");
    if d != e {
        assert(weekday_zh(d)[1] != weekday_zh(e)[1]);
    }
}

/// A sorted network list puts the connected network first and then
/// never a weaker signal before a stronger one; it holds the same entries.
pub proof fn law_wifi_sorted(entries: Seq<WifiEntry>)
    ensures
        is_sorted(sorted_stable(entries)),
        sorted_stable(entries).to_multiset() == entries.to_multiset(),
{
    assert(strict_weak_on(entries));
    lemma_sorted_stable_is_sorted(entries);
    lemma_sorted_multiset(entries);
}

/// The panel's views.
#[derive(PartialEq, Eq, Structural, Clone, Copy, Debug)]
pub enum PanelView {
    Main,
    Wifi,
    Bluetooth,
}

/// What opening a view asks for.
#[derive(PartialEq, Eq, Structural, Clone, Copy, Debug)]
pub enum ScanAction {
    /// Ask the BlueZ client for a fresh snapshot.
    RefreshBluetooth,
    /// Scan for Wi-Fi networks (once per panel).
    ScanWifi,
    Nothing,
}

/// The scan a view needs: Bluetooth always refreshes, Wi-Fi scans the
/// first time only; returns the action and whether Wi-Fi has been scanned
/// afterwards.
pub fn scan_for_view(view: PanelView, wifi_scanned: bool) -> (r: (ScanAction, bool))
    ensures
        r == (match view {
            PanelView::Bluetooth => (ScanAction::RefreshBluetooth, wifi_scanned),
            PanelView::Wifi => if wifi_scanned { (ScanAction::Nothing, true) } else { (ScanAction::ScanWifi, true) },
            PanelView::Main => (ScanAction::Nothing, wifi_scanned),
        }),
{
    match view {
        PanelView::Bluetooth => (ScanAction::RefreshBluetooth, wifi_scanned),
        PanelView::Wifi => if wifi_scanned { (ScanAction::Nothing, true) } else { (ScanAction::ScanWifi, true) },
        PanelView::Main => (ScanAction::Nothing, wifi_scanned),
    }
}

/// The view after "back", and whether it changed (so the panel redraws):
/// every view goes back to the main one.
pub fn back_from(view: PanelView) -> (r: (PanelView, bool))
    ensures
        r == (PanelView::Main, view != PanelView::Main),
{
    (PanelView::Main, view != PanelView::Main)
}

} // verus!
