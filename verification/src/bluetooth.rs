//! BlueZ device list handling: how a device is named, how the list is
//! ordered, what the client loop does with each event, and how the
//! quick-settings panel shows a device.
use vstd::prelude::*;
use crate::sort::{
    is_sorted, lemma_seq_lt_asym, lemma_seq_lt_neg_trans, lemma_sorted_multiset,
    lemma_sorted_stable_is_sorted, seq_lt, sort_stable, sorted_stable, str_lt, strict_weak_on, Ranked,
};
use crate::text::{chars_of, str_eq, string_from_chars};

verus! {

/// A BlueZ device as the quick-settings panel lists it.
pub struct BtDevice {
    /// BlueZ object path, the handle for connect/disconnect requests.
    pub path: String,
    pub address: String,
    pub name: String,
    pub icon: String,
    pub connected: bool,
    pub paired: bool,
}

/// A request from the UI to the BlueZ client.
pub enum BtCommand {
    Connect(String),
    Disconnect(String),
    Refresh,
}

/// What woke the BlueZ client loop.
pub enum BtLoopEvent {
    Cmd(BtCommand),
    /// BlueZ announced a new object (`InterfacesAdded`).
    SignalAdded,
    /// BlueZ dropped an object (`InterfacesRemoved`).
    SignalRemoved,
    /// A BlueZ object's properties changed (`PropertiesChanged`), e.g. a
    /// device connected or disconnected from elsewhere.
    PropertiesChanged,
}

/// What the BlueZ client loop does next. After a connect or disconnect it
/// always publishes a fresh snapshot as well.
pub enum BtAction {
    Connect(String),
    Disconnect(String),
    Resnapshot,
    Stop,
}

/// The loop's answer to an event; `None` means the command channel closed.
pub fn plan_bt_event(ev: Option<BtLoopEvent>) -> (a: BtAction)
    ensures
        match ev {
            None => a is Stop,
            Some(BtLoopEvent::Cmd(BtCommand::Connect(p))) => a == BtAction::Connect(p),
            Some(BtLoopEvent::Cmd(BtCommand::Disconnect(p))) => a == BtAction::Disconnect(p),
            Some(BtLoopEvent::Cmd(BtCommand::Refresh)) => a is Resnapshot,
            Some(BtLoopEvent::SignalAdded) => a is Resnapshot,
            Some(BtLoopEvent::SignalRemoved) => a is Resnapshot,
            Some(BtLoopEvent::PropertiesChanged) => a is Resnapshot,
        },
{
    match ev {
        None => BtAction::Stop,
        Some(BtLoopEvent::Cmd(BtCommand::Connect(p))) => BtAction::Connect(p),
        Some(BtLoopEvent::Cmd(BtCommand::Disconnect(p))) => BtAction::Disconnect(p),
        Some(_) => BtAction::Resnapshot,
    }
}

/// The name shown for a device: its alias, else its name, else its
/// address (empty strings count as missing).
pub open spec fn spec_display_name(alias: Option<Seq<char>>, name: Option<Seq<char>>, address: Seq<char>) -> Seq<char> {
    match alias {
        Some(a) if a.len() > 0 => a,
        _ => match name {
            Some(n) if n.len() > 0 => n,
            _ => address,
        },
    }
}

pub fn display_name(alias: Option<String>, name: Option<String>, address: &String) -> (r: String)
    ensures
        r@ == spec_display_name(alias.deep_view(), name.deep_view(), address@),
{
    match alias {
        Some(a) if !a.as_str().is_empty() => {
            return a;
        },
        _ => {},
    }
    match name {
        Some(n) if !n.as_str().is_empty() => n,
        _ => address.clone(),
    }
}

/// Connected devices first, then paired ones, then by name.
impl Ranked for BtDevice {
    open spec fn spec_before(&self, other: &Self) -> bool {
        (self.connected && !other.connected) || (self.connected == other.connected && (
        (self.paired && !other.paired) || (self.paired == other.paired && seq_lt(self.name@, other.name@))))
    }

    fn before(&self, other: &Self) -> (b: bool) {
        if self.connected != other.connected {
            self.connected
        } else if self.paired != other.paired {
            self.paired
        } else {
            str_lt(self.name.as_str(), other.name.as_str())
        }
    }
}

/// Order a device snapshot: connected, then paired, then the rest, each
/// group by name; a stable sort.
pub fn sort_devices(devices: Vec<BtDevice>) -> (r: Vec<BtDevice>)
    ensures
        r@ == sorted_stable(devices@),
{
    sort_stable(devices)
}

/// A device row of the quick-settings panel, with the panel's optimistic
/// flags.
pub struct PanelBtDevice {
    pub path: String,
    pub name: String,
    pub icon: String,
    pub connected: bool,
    pub paired: bool,
    /// Set on click, cleared by the next snapshot.
    pub pending: bool,
    /// The last connect attempt did not take.
    pub unavailable: bool,
}

impl PanelBtDevice {
    /// A fresh row for a snapshot entry: not pending, not unavailable.
    pub fn from_device(d: BtDevice) -> (r: PanelBtDevice)
        ensures
            r.path == d.path,
            r.name == d.name,
            r.icon == d.icon,
            r.connected == d.connected,
            r.paired == d.paired,
            !r.pending,
            !r.unavailable,
    {
        PanelBtDevice {
            path: d.path,
            name: d.name,
            icon: d.icon,
            connected: d.connected,
            paired: d.paired,
            pending: false,
            unavailable: false,
        }
    }
}

/// The status line of a paired device's row: moving toward the shown
/// state while a request is pending, then unavailable after a failed
/// attempt, else connected or paired.
pub open spec fn spec_row_status(d: PanelBtDevice) -> Seq<char> {
    if d.pending {
        if d.connected { "连接中…"@ } else { "断开中…"@ }
    } else if d.unavailable {
        "不可用 · 点击重试"@
    } else if d.connected {
        "已连接"@
    } else {
        "已配对"@
    }
}

pub fn row_status(d: &PanelBtDevice) -> (r: &'static str)
    ensures
        r@ == spec_row_status(*d),
{
    if d.pending {
        if d.connected { "连接中…" } else { "断开中…" }
    } else if d.unavailable {
        "不可用 · 点击重试"
    } else if d.connected {
        "已连接"
    } else {
        "已配对"
    }
}

/// The chip at the end of a paired device's row.
pub fn row_chip(d: &PanelBtDevice) -> (r: Option<&'static str>)
    ensures
        match r {
            Some(c) => (d.pending && c@ == "…"@) || (!d.pending && d.connected && c@ == "活动"@),
            None => !d.pending && !d.connected,
        },
{
    if d.pending {
        Some("…")
    } else if d.connected {
        Some("活动")
    } else {
        None
    }
}

/// The index of the first row for `path`.
pub open spec fn first_row(rows: Seq<PanelBtDevice>, path: Seq<char>) -> Option<int> {
    if exists|i: int| 0 <= i < rows.len() && rows[i].path@ == path {
        Some(choose|i: int| 0 <= i < rows.len() && rows[i].path@ == path
            && forall|j: int| 0 <= j < i ==> rows[j].path@ != path)
    } else {
        None
    }
}

fn find_row(rows: &Vec<PanelBtDevice>, path: &str) -> (r: Option<usize>)
    ensures
        match r {
            Some(i) => first_row(rows@, path@) == Some(i as int) && i < rows@.len(),
            None => first_row(rows@, path@) is None,
        },
{
    let mut i: usize = 0;
    while i < rows.len()
        invariant
            i <= rows@.len(),
            forall|j: int| 0 <= j < i ==> rows@[j].path@ != path@,
        decreases rows@.len() - i,
    {
        if str_eq(rows[i].path.as_str(), path) {
            proof {
                let k = choose|k: int| 0 <= k < rows@.len() && rows@[k].path@ == path@
                    && forall|j: int| 0 <= j < k ==> rows@[j].path@ != path@;
                if k > i {
                    assert(rows@[i as int].path@ == path@);
                }
            }
            return Some(i);
        }
        i = i + 1;
    }
    None
}

/// A click on a paired device's row that was showing `was_connected` and
/// `was_pending`: nothing while a request is pending; otherwise the row
/// (the first for its path, if it is still listed) optimistically shows
/// the target state as pending, and the command to send is returned.
pub fn begin_toggle(rows: &mut Vec<PanelBtDevice>, path: &str, was_connected: bool, was_pending: bool) -> (cmd: Option<BtCommand>)
    ensures
        was_pending ==> cmd is None && final(rows)@ == old(rows)@,
        !was_pending ==> {
            &&& match cmd {
                Some(BtCommand::Disconnect(p)) => was_connected && p@ == path@,
                Some(BtCommand::Connect(p)) => !was_connected && p@ == path@,
                _ => false,
            }
            &&& final(rows)@.len() == old(rows)@.len()
            &&& forall|j: int| 0 <= j < old(rows)@.len() ==> {
                let o = old(rows)@[j];
                let n = #[trigger] final(rows)@[j];
                if first_row(old(rows)@, path@) == Some(j) {
                    n == PanelBtDevice { connected: !was_connected, pending: true, unavailable: false, ..o }
                } else {
                    n == o
                }
            }
        },
{
    if was_pending {
        return None;
    }
    match find_row(rows, path) {
        Some(i) => {
            let ghost before = rows@;
            let o = rows.remove(i);
            let n = PanelBtDevice { connected: !was_connected, pending: true, unavailable: false, ..o };
            rows.insert(i, n);
            proof {
                assert forall|j: int| 0 <= j < before.len() implies {
                    let o = before[j];
                    let n = #[trigger] rows@[j];
                    if first_row(before, path@) == Some(j) {
                        n == PanelBtDevice { connected: !was_connected, pending: true, unavailable: false, ..o }
                    } else {
                        n == o
                    }
                } by {
                    if j < i {
                        assert(rows@[j] == before[j]);
                    } else if j > i {
                        assert(rows@[j] == before[j]);
                    }
                }
            }
        },
        None => {},
    }
    let p = string_from_chars(chars_of(path).as_slice());
    if was_connected { Some(BtCommand::Disconnect(p)) } else { Some(BtCommand::Connect(p)) }
}

/// The rows whose `paired` flag is `want`, in order.
pub open spec fn rows_with_paired(rows: Seq<PanelBtDevice>, want: bool) -> Seq<PanelBtDevice>
    decreases rows.len(),
{
    if rows.len() == 0 {
        Seq::empty()
    } else if rows.last().paired == want {
        rows_with_paired(rows.drop_last(), want).push(rows.last())
    } else {
        rows_with_paired(rows.drop_last(), want)
    }
}

/// Split the rows into the paired section and the nearby section, each
/// in list order.
pub fn split_paired(rows: Vec<PanelBtDevice>) -> (r: (Vec<PanelBtDevice>, Vec<PanelBtDevice>))
    ensures
        r.0@ == rows_with_paired(rows@, true),
        r.1@ == rows_with_paired(rows@, false),
{
    let ghost all = rows@;
    let mut rest = rows;
    let mut rev: Vec<PanelBtDevice> = Vec::new();
    while rest.len() > 0
        invariant
            rev@.len() + rest@.len() == all.len(),
            rest@ == all.take(rest@.len() as int),
            forall|k: int| 0 <= k < rev@.len() ==> #[trigger] rev@[k] == all[all.len() - 1 - k],
        decreases rest@.len(),
    {
        let x = rest.pop().unwrap();
        rev.push(x);
    }
    let mut paired: Vec<PanelBtDevice> = Vec::new();
    let mut nearby: Vec<PanelBtDevice> = Vec::new();
    let ghost n = all.len();
    while rev.len() > 0
        invariant
            n == all.len(),
            rev@.len() <= n,
            forall|k: int| 0 <= k < rev@.len() ==> #[trigger] rev@[k] == all[n - 1 - k],
            paired@ == rows_with_paired(all.take(n - rev@.len()), true),
            nearby@ == rows_with_paired(all.take(n - rev@.len()), false),
        decreases rev@.len(),
    {
        let ghost done = n - rev@.len();
        let d = rev.pop().unwrap();
        proof {
            assert(d == all[done]);
            assert(all.take(done + 1).drop_last() =~= all.take(done));
            assert(all.take(done + 1).last() == all[done]);
        }
        if d.paired {
            paired.push(d);
        } else {
            nearby.push(d);
        }
    }
    assert(all.take(n as int) =~= all);
    (paired, nearby)
}

/// The Nerd Font glyph for a BlueZ `Device.Icon` hint.
pub open spec fn spec_bt_icon(icon: Seq<char>) -> Seq<char> {
    if icon == "audio-headphones"@ || icon == "audio-headset"@ || icon == "audio-earphone"@ {
        "\u{f025f}"@
    } else if icon == "audio-card"@ || icon == "audio-speakers"@ {
        "\u{f057e}"@
    } else if icon == "input-keyboard"@ {
        "\u{f030c}"@
    } else if icon == "input-mouse"@ {
        "\u{f037d}"@
    } else if icon == "input-gaming"@ {
        "\u{f0eb5}"@
    } else if icon == "phone"@ || icon == "phone-smart"@ {
        "\u{f011c}"@
    } else if icon == "computer"@ || icon == "computer-laptop"@ {
        "\u{f0379}"@
    } else if icon == "video-display"@ || icon == "tv"@ {
        "\u{f07f9}"@
    } else if icon == "camera-photo"@ || icon == "camera"@ {
        "\u{f0100}"@
    } else if icon == "watch"@ || icon == "smartwatch"@ {
        "\u{f0fc9}"@
    } else {
        "\u{f00af}"@
    }
}

/// Map a BlueZ `Device.Icon` hint to its glyph; unknown hints get the
/// generic bluetooth glyph.
pub fn bt_icon(icon: &str) -> (r: &'static str)
    ensures
        r@ == spec_bt_icon(icon@),
{
    if str_eq(icon, "audio-headphones") || str_eq(icon, "audio-headset") || str_eq(icon, "audio-earphone") {
        "\u{f025f}"
    } else if str_eq(icon, "audio-card") || str_eq(icon, "audio-speakers") {
        "\u{f057e}"
    } else if str_eq(icon, "input-keyboard") {
        "\u{f030c}"
    } else if str_eq(icon, "input-mouse") {
        "\u{f037d}"
    } else if str_eq(icon, "input-gaming") {
        "\u{f0eb5}"
    } else if str_eq(icon, "phone") || str_eq(icon, "phone-smart") {
        "\u{f011c}"
    } else if str_eq(icon, "computer") || str_eq(icon, "computer-laptop") {
        "\u{f0379}"
    } else if str_eq(icon, "video-display") || str_eq(icon, "tv") {
        "\u{f07f9}"
    } else if str_eq(icon, "camera-photo") || str_eq(icon, "camera") {
        "\u{f0100}"
    } else if str_eq(icon, "watch") || str_eq(icon, "smartwatch") {
        "\u{f0fc9}"
    } else {
        "\u{f00af}"
    }
}

/// A sorted device list never has a device after one it should follow:
/// connected ones come first, then paired ones, then by name; and it holds
/// the same devices.
pub proof fn law_devices_sorted(devices: Seq<BtDevice>)
    ensures
        is_sorted(sorted_stable(devices)),
        sorted_stable(devices).to_multiset() == devices.to_multiset(),
        forall|i: int, j: int| 0 <= i < j < sorted_stable(devices).len() ==>
            (#[trigger] sorted_stable(devices)[j]).connected ==> (#[trigger] sorted_stable(devices)[i]).connected,
        forall|i: int, j: int| 0 <= i < j < sorted_stable(devices).len()
            && (#[trigger] sorted_stable(devices)[i]).connected == (#[trigger] sorted_stable(devices)[j]).connected
            && sorted_stable(devices)[j].paired ==> sorted_stable(devices)[i].paired,
        forall|i: int, j: int| 0 <= i < j < sorted_stable(devices).len()
            && (#[trigger] sorted_stable(devices)[i]).connected == (#[trigger] sorted_stable(devices)[j]).connected
            && sorted_stable(devices)[i].paired == sorted_stable(devices)[j].paired
            ==> !seq_lt(sorted_stable(devices)[j].name@, sorted_stable(devices)[i].name@),
{
    assert forall|a: BtDevice, b: BtDevice| devices.contains(a) && devices.contains(b)
        && #[trigger] a.spec_before(&b) implies !b.spec_before(&a) by {
        lemma_seq_lt_asym(a.name@, b.name@);
    }
    assert forall|a: BtDevice, b: BtDevice, c: BtDevice|
        devices.contains(a) && devices.contains(b) && devices.contains(c) && !#[trigger] a.spec_before(&b)
            && !#[trigger] b.spec_before(&c) implies !a.spec_before(&c) by {
        lemma_seq_lt_neg_trans(a.name@, b.name@, c.name@);
        lemma_seq_lt_asym(a.name@, b.name@);
        lemma_seq_lt_asym(b.name@, c.name@);
    }
    assert(strict_weak_on(devices));
    lemma_sorted_stable_is_sorted(devices);
    lemma_sorted_multiset(devices);
    let r = sorted_stable(devices);
    assert forall|i: int, j: int| #![trigger r[i], r[j]] 0 <= i < j < r.len() implies !r[j].spec_before(&r[i]) by {}
}

} // verus!
