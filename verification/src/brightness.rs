//! Brightness module logic: finding DDC/CI monitors through DRM sysfs names
//! and EDID blobs, turning raw readings into percentages, and labelling
//! displays.
use vstd::prelude::*;
use vstd::hash_map::StringHashMap;
use vstd::string::StrSliceExecFns;
use vstd::utf8::{decode_utf8, valid_utf8};
use crate::sort::{
    is_sorted, lemma_seq_lt_asym, lemma_seq_lt_neg_trans, lemma_sorted_multiset,
    lemma_sorted_stable_is_sorted, seq_lt, sort_stable, sorted_stable, str_lt, strict_weak_on, Ranked,
};
use crate::text::{
    chars_of, chars_eq, has_prefix, str_eq, parse_unsigned, parse_unsigned_chars, push_all, starts_with,
    string_from_chars, trim, trim_chars,
};

verus! {

/// What `String::from_utf8_lossy` makes of a byte string.
pub uninterp spec fn utf8_lossy(bytes: Seq<u8>) -> Seq<char>;

/// Decode bytes as UTF-8, replacing invalid sequences.
/// Trusted: calls `String::from_utf8_lossy`; its result is named
/// `utf8_lossy`, and std documents that valid UTF-8 comes back unchanged.
/// How invalid sequences are replaced is left unsaid.
#[verifier::external_body]
fn from_utf8_lossy(bytes: &[u8]) -> (s: String)
    ensures
        s@ == utf8_lossy(bytes@),
        valid_utf8(bytes@) ==> s@ == decode_utf8(bytes@),
{
    String::from_utf8_lossy(bytes).into_owned()
}

/// The connector part of a DRM entry name `card<digits>-<connector>`.
pub open spec fn after_card_digits(r: Seq<char>) -> Option<Seq<char>>
    decreases r.len(),
{
    if r.len() == 0 {
        None
    } else if r[0] == '-' {
        Some(r.drop_first())
    } else if '0' <= r[0] && r[0] <= '9' {
        after_card_digits(r.drop_first())
    } else {
        None
    }
}

pub open spec fn spec_strip_card_prefix(s: Seq<char>) -> Option<Seq<char>> {
    if has_prefix(s, "card"@) { after_card_digits(s.skip(4)) } else { None }
}

/// Strip the `cardN-` prefix from a sysfs DRM entry name, leaving the
/// connector (`card1-HDMI-A-1` gives `HDMI-A-1`); `None` for names of any
/// other shape.
pub fn strip_card_prefix(s: &str) -> (r: Option<&str>)
    ensures
        match spec_strip_card_prefix(s@) {
            Some(c) => r is Some && r.unwrap()@ == c,
            None => r is None,
        },
{
    let cs = chars_of(s);
    let card = chars_of("card");
    proof { reveal_strlit("card"); }
    if !starts_with(cs.as_slice(), card.as_slice()) {
        return None;
    }
    let n = cs.len();
    let mut i: usize = 4;
    assert(s@.skip(4) =~= cs@.skip(4));
    while i < n
        invariant
            4 <= i <= n,
            n == cs@.len(),
            has_prefix(s@, "card"@),
            "card"@.len() == 4,
            cs@ == s@,
            after_card_digits(cs@.skip(4)) == after_card_digits(cs@.skip(i as int)),
        decreases n - i,
    {
        let c = cs[i];
        assert(cs@.skip(i as int)[0] == c);
        if c == '-' {
            assert(cs@.skip(i as int).drop_first() =~= cs@.subrange(i + 1, n as int));
            assert(has_prefix(s@, "card"@));
            assert(spec_strip_card_prefix(s@) == after_card_digits(s@.skip(4)));
            assert(after_card_digits(cs@.skip(i as int)) == Some(cs@.subrange(i + 1, n as int)));
            return Some(s.substring_char(i + 1, n));
        }
        if !('0' <= c && c <= '9') {
            return None;
        }
        assert(cs@.skip(i as int).drop_first() =~= cs@.skip(i + 1));
        i = i + 1;
    }
    None
}

/// The bytes of a display descriptor's text field, up to its newline.
pub open spec fn take_until_lf(b: Seq<u8>) -> Seq<u8>
    decreases b.len(),
{
    if b.len() == 0 || b[0] == 0x0Au8 {
        Seq::empty()
    } else {
        seq![b[0]] + take_until_lf(b.drop_first())
    }
}

/// A byte string read as UTF-8 text: decoded as it stands where it is valid
/// UTF-8, else with the replacements that `String::from_utf8_lossy` makes.
pub open spec fn text_of_bytes(b: Seq<u8>) -> Seq<char> {
    if valid_utf8(b) { decode_utf8(b) } else { utf8_lossy(b) }
}

/// The product name held by the 18-byte descriptor at `start`, if it is a
/// non-empty display product name descriptor (tag `0xFC`).
pub open spec fn descriptor_name(bytes: Seq<u8>, start: int) -> Option<Seq<char>> {
    let d = bytes.subrange(start, start + 18);
    if d[0] != 0 || d[1] != 0 || d[3] != 0xFCu8 {
        None
    } else {
        let name = trim(text_of_bytes(take_until_lf(d.subrange(5, 18))));
        if name.len() > 0 { Some(name) } else { None }
    }
}

/// The display product name of an EDID blob: the first of the four
/// descriptors at offsets 54, 72, 90, 108 that holds one.
pub open spec fn spec_edid_product_name(bytes: Seq<u8>) -> Option<Seq<char>> {
    if bytes.len() < 128 {
        None
    } else if descriptor_name(bytes, 54) is Some {
        descriptor_name(bytes, 54)
    } else if descriptor_name(bytes, 72) is Some {
        descriptor_name(bytes, 72)
    } else if descriptor_name(bytes, 90) is Some {
        descriptor_name(bytes, 90)
    } else {
        descriptor_name(bytes, 108)
    }
}

fn descriptor_name_exec(bytes: &[u8], start: usize) -> (r: Option<String>)
    requires
        start + 18 <= bytes@.len(),
    ensures
        r.deep_view() == descriptor_name(bytes@, start as int),
{
    let ghost d = bytes@.subrange(start as int, start + 18);
    if bytes[start] != 0 || bytes[start + 1] != 0 || bytes[start + 3] != 0xFC {
        return None;
    }
    let mut raw: Vec<u8> = Vec::new();
    let end: usize = start + 18;
    let mut k: usize = start + 5;
    let ghost text = d.subrange(5, 18);
    assert(text =~= bytes@.subrange(start + 5, start + 18));
    assert(raw@ + take_until_lf(text) =~= take_until_lf(text));
    while k < end && bytes[k] != 0x0A
        invariant
            end == start + 18,
            start + 5 <= k <= start + 18,
            start + 18 <= bytes@.len(),
            text == bytes@.subrange(start + 5, start + 18),
            take_until_lf(text) == raw@ + take_until_lf(bytes@.subrange(k as int, start + 18)),
        decreases start + 18 - k,
    {
        let ghost rest = bytes@.subrange(k as int, start + 18);
        assert(rest.drop_first() =~= bytes@.subrange(k + 1, start + 18));
        raw.push(bytes[k]);
        k = k + 1;
        assert(take_until_lf(rest) == seq![rest[0]] + take_until_lf(rest.drop_first()));
        assert(raw@ + take_until_lf(bytes@.subrange(k as int, start + 18))
            =~= raw@.drop_last() + take_until_lf(rest));
    }
    assert(text =~= d.subrange(5, 18));
    assert(take_until_lf(bytes@.subrange(k as int, start + 18)) =~= Seq::<u8>::empty());
    assert(raw@ =~= take_until_lf(text));
    let s = from_utf8_lossy(raw.as_slice());
    let cs = chars_of(s.as_str());
    let t = trim_chars(cs.as_slice());
    if t.len() > 0 {
        Some(string_from_chars(t.as_slice()))
    } else {
        None
    }
}

/// Parse a binary EDID blob and return its display product name, or
/// `None` when the blob is shorter than 128 bytes or carries no name.
pub fn parse_edid_product_name(bytes: &[u8]) -> (r: Option<String>)
    ensures
        r.deep_view() == spec_edid_product_name(bytes@),
{
    if bytes.len() < 128 {
        return None;
    }
    let a = descriptor_name_exec(bytes, 54);
    if a.is_some() {
        return a;
    }
    let b = descriptor_name_exec(bytes, 72);
    if b.is_some() {
        return b;
    }
    let c = descriptor_name_exec(bytes, 90);
    if c.is_some() {
        return c;
    }
    descriptor_name_exec(bytes, 108)
}

/// The backlight level as a percentage of the maximum (rounded down);
/// `None` when the maximum is zero.
pub fn backlight_percent(cur: u32, max: u32) -> (r: Option<u32>)
    requires
        cur * 100 <= u32::MAX,
    ensures
        r == if max == 0 { None } else { Some(((cur * 100) / (max as int)) as u32) },
{
    if max == 0 {
        None
    } else {
        Some((cur * 100) / max)
    }
}

/// A sysfs number attribute: the trimmed content as a `u32`.
pub fn u32_from_text(content: &str) -> (r: Option<u32>)
    ensures
        match parse_unsigned(trim(content@), u32::MAX as nat) {
            Some(v) => r == Some(v as u32),
            None => r is None,
        },
{
    let cs = chars_of(content);
    let t = trim_chars(cs.as_slice());
    match parse_unsigned_chars(t.as_slice(), u32::MAX as u64) {
        Some(v) => Some(v as u32),
        None => None,
    }
}

/// A DDC/CI brightness reading as a percentage of the monitor's maximum.
pub fn ddc_percent(value: u16, maximum: u16) -> (r: Option<u32>)
    ensures
        r == if maximum == 0 { None } else { Some(((value * 100) / (maximum as int)) as u32) },
{
    if maximum == 0 {
        None
    } else {
        Some((value as u32 * 100) / maximum as u32)
    }
}

/// The VCP value the worker writes for a pending target: clamped to 0..=100.
pub fn ddc_write_value(pct: i16) -> (v: u16)
    ensures
        v == if pct < 0 { 0 } else if pct > 100 { 100 } else { pct as u16 },
{
    if pct < 0 {
        0
    } else if pct > 100 {
        100
    } else {
        pct as u16
    }
}

/// A requested brightness, capped at 100%.
pub fn clamp_percent(percent: u32) -> (p: u32)
    ensures
        p == if percent > 100 { 100 } else { percent },
{
    if percent > 100 { 100 } else { percent }
}

/// `/dev/<bus>` for a DDC link that resolves to an `i2c-*` bus.
pub fn i2c_dev_path(bus_name: &str) -> (r: Option<String>)
    ensures
        r.deep_view() == (if has_prefix(bus_name@, "i2c-"@) { Some("/dev/"@ + bus_name@) } else { None }),
{
    let b = chars_of(bus_name);
    let pre = chars_of("i2c-");
    if !starts_with(b.as_slice(), pre.as_slice()) {
        return None;
    }
    let mut out = chars_of("/dev/");
    push_all(&mut out, b.as_slice());
    Some(string_from_chars(out.as_slice()))
}

/// One external monitor controlled over DDC/CI.
pub struct DdciDisplay {
    /// The `/dev/i2c-N` device.
    pub path: String,
    /// DRM connector name (e.g. `HDMI-A-1`).
    pub connector: String,
    /// EDID product name, or the connector when the EDID carries none.
    pub model: String,
    /// The compositor display this bus drives, where it could be matched.
    pub display_id: Option<u32>,
}

/// Displays are listed by connector name.
impl Ranked for DdciDisplay {
    open spec fn spec_before(&self, other: &Self) -> bool {
        seq_lt(self.connector@, other.connector@)
    }

    fn before(&self, other: &Self) -> (b: bool) {
        str_lt(self.connector.as_str(), other.connector.as_str())
    }
}

/// A responsive DDC/CI bus found through DRM sysfs, before labelling.
pub struct DdcCandidate {
    pub path: String,
    pub connector: String,
    /// The EDID product name; empty when there was none.
    pub model: String,
    pub display_id: Option<u32>,
}

/// The display entry for a candidate: its EDID name, or its connector
/// when the name is empty.
pub open spec fn display_of(c: DdcCandidate) -> DdciDisplay {
    DdciDisplay {
        path: c.path,
        connector: c.connector,
        model: if c.model@.len() == 0 { c.connector } else { c.model },
        display_id: c.display_id,
    }
}

/// Label the responsive buses and order them by connector, so the list
/// is the same on every run.
pub fn finish_displays(cands: Vec<DdcCandidate>) -> (r: Vec<DdciDisplay>)
    ensures
        r@ == sorted_stable(cands@.map_values(|c: DdcCandidate| display_of(c))),
{
    let mut out: Vec<DdciDisplay> = Vec::new();
    let mut rest = cands;
    let ghost orig = rest@;
    let mut rev: Vec<DdcCandidate> = Vec::new();
    while rest.len() > 0
        invariant
            rev@.len() + rest@.len() == orig.len(),
            rest@ == orig.take(rest@.len() as int),
            forall|k: int| 0 <= k < rev@.len() ==> #[trigger] rev@[k] == orig[orig.len() - 1 - k],
        decreases rest@.len(),
    {
        let x = rest.pop().unwrap();
        rev.push(x);
        assert(rest@ =~= orig.take(rest@.len() as int));
    }
    let ghost n = orig.len();
    while rev.len() > 0
        invariant
            n == orig.len(),
            rev@.len() <= n,
            forall|k: int| 0 <= k < rev@.len() ==> #[trigger] rev@[k] == orig[n - 1 - k],
            out@ == orig.take(n - rev@.len()).map_values(|c: DdcCandidate| display_of(c)),
        decreases rev@.len(),
    {
        let c = rev.pop().unwrap();
        let ghost cg = c;
        let model = if c.model.as_str().is_empty() { c.connector.clone() } else { c.model };
        let d = DdciDisplay { path: c.path, connector: c.connector, model, display_id: c.display_id };
        assert(d == display_of(cg));
        out.push(d);
        assert(out@ =~= orig.take(n - rev@.len()).map_values(|c: DdcCandidate| display_of(c)));
    }
    assert(orig.take(n as int) =~= orig);
    sort_stable(out)
}

/// Where brightness lives: a laptop backlight, external monitors over
/// DDC/CI, or nowhere.
pub enum BrightnessSource {
    Backlight { device: String, max_brightness: u32 },
    Ddci2c { displays: Vec<DdciDisplay> },
    NoSource,
}

/// Seconds between polls: 5 for a backlight, 10 for DDC/CI, 60 without a
/// source.
pub fn poll_interval_secs(source: &BrightnessSource) -> (s: u64)
    ensures
        s == match *source {
            BrightnessSource::Backlight { .. } => 5u64,
            BrightnessSource::Ddci2c { .. } => 10u64,
            BrightnessSource::NoSource => 60u64,
        },
{
    match source {
        BrightnessSource::Backlight { .. } => 5,
        BrightnessSource::Ddci2c { .. } => 10,
        BrightnessSource::NoSource => 60,
    }
}

/// The DDC/CI displays of a source; empty for the others.
pub fn source_displays(source: &BrightnessSource) -> (d: &[DdciDisplay])
    ensures
        match *source {
            BrightnessSource::Ddci2c { displays } => d@ == displays@,
            _ => d@.len() == 0,
        },
{
    match source {
        BrightnessSource::Ddci2c { displays } => displays.as_slice(),
        _ => &[],
    }
}

/// The position of the first display bound to `display_id`.
pub fn find_display(displays: &[DdciDisplay], display_id: u32) -> (r: Option<usize>)
    ensures
        match r {
            Some(i) => i < displays@.len() && displays@[i as int].display_id == Some(display_id)
                && forall|k: int| 0 <= k < i ==> displays@[k].display_id != Some(display_id),
            None => forall|k: int| 0 <= k < displays@.len() ==> displays@[k].display_id != Some(display_id),
        },
{
    let mut i: usize = 0;
    while i < displays.len()
        invariant
            i <= displays@.len(),
            forall|k: int| 0 <= k < i ==> displays@[k].display_id != Some(display_id),
        decreases displays@.len() - i,
    {
        match displays[i].display_id {
            Some(id) => {
                if id == display_id {
                    return Some(i);
                }
            },
            None => {},
        }
        i = i + 1;
    }
    None
}

/// `model (connector)`, or just the connector when the model is the
/// connector.
pub open spec fn spec_display_label(d: DdciDisplay) -> Seq<char> {
    if d.model@ == d.connector@ {
        d.connector@
    } else {
        d.model@ + " ("@ + d.connector@ + ")"@
    }
}

/// Friendly label for the display bound to `display_id`.
pub fn label_for(displays: &[DdciDisplay], display_id: u32) -> (r: Option<String>)
    ensures
        match find_first(displays@, display_id) {
            Some(i) => r is Some && r.unwrap()@ == spec_display_label(displays@[i]),
            None => r is None,
        },
{
    let i = match find_display(displays, display_id) {
        Some(i) => i,
        None => {
            proof { lemma_find_first_none(displays@, display_id); }
            return None;
        },
    };
    proof { lemma_find_first_some(displays@, display_id, i as int); }
    let d = &displays[i];
    let m = chars_of(d.model.as_str());
    let c = chars_of(d.connector.as_str());
    if chars_eq(m.as_slice(), c.as_slice()) {
        Some(d.connector.clone())
    } else {
        let mut out = m;
        let open = chars_of(" (");
        let close = chars_of(")");
        push_all(&mut out, open.as_slice());
        push_all(&mut out, c.as_slice());
        push_all(&mut out, close.as_slice());
        Some(string_from_chars(out.as_slice()))
    }
}

/// The index of the first display bound to `id`.
pub open spec fn find_first(ds: Seq<DdciDisplay>, id: u32) -> Option<int>
    decreases ds.len(),
{
    if ds.len() == 0 {
        None
    } else if ds.last().display_id == Some(id) && find_first(ds.drop_last(), id) is None {
        Some(ds.len() - 1)
    } else {
        find_first(ds.drop_last(), id)
    }
}

proof fn lemma_find_first_none(ds: Seq<DdciDisplay>, id: u32)
    requires
        forall|k: int| 0 <= k < ds.len() ==> ds[k].display_id != Some(id),
    ensures
        find_first(ds, id) is None,
    decreases ds.len(),
{
    if ds.len() > 0 {
        lemma_find_first_none(ds.drop_last(), id);
    }
}

proof fn lemma_find_first_some(ds: Seq<DdciDisplay>, id: u32, i: int)
    requires
        0 <= i < ds.len(),
        ds[i].display_id == Some(id),
        forall|k: int| 0 <= k < i ==> ds[k].display_id != Some(id),
    ensures
        find_first(ds, id) == Some(i),
    decreases ds.len(),
{
    if i < ds.len() - 1 {
        lemma_find_first_some(ds.drop_last(), id, i);
    } else {
        lemma_find_first_none(ds.drop_last(), id);
    }
}

/// The glyph for a brightness level.
pub fn brightness_icon(pct: u32) -> (r: &'static str)
    ensures
        r@ == if pct <= 30 { "\u{f00de}"@ } else if pct <= 70 { "\u{f00df}"@ } else { "\u{f00e0}"@ },
{
    if pct <= 30 {
        "\u{f00de}"
    } else if pct <= 70 {
        "\u{f00df}"
    } else {
        "\u{f00e0}"
    }
}

/// The monitor list is in connector order, so it is the same on every run
/// for the same monitors, and it holds every responsive monitor.
pub proof fn law_displays_sorted(displays: Seq<DdciDisplay>)
    ensures
        is_sorted(sorted_stable(displays)),
        sorted_stable(displays).to_multiset() == displays.to_multiset(),
{
    assert forall|a: DdciDisplay, b: DdciDisplay| displays.contains(a) && displays.contains(b)
        && #[trigger] a.spec_before(&b) implies !b.spec_before(&a) by {
        lemma_seq_lt_asym(a.connector@, b.connector@);
    }
    assert forall|a: DdciDisplay, b: DdciDisplay, c: DdciDisplay|
        displays.contains(a) && displays.contains(b) && displays.contains(c) && !#[trigger] a.spec_before(&b)
            && !#[trigger] b.spec_before(&c) implies !a.spec_before(&c) by {
        lemma_seq_lt_neg_trans(a.connector@, b.connector@, c.connector@);
    }
    lemma_sorted_stable_is_sorted(displays);
    lemma_sorted_multiset(displays);
}

/// The first display in list order that has a recorded level, and that
/// level.
pub open spec fn first_recorded(ds: Seq<DdciDisplay>, levels: Map<Seq<char>, u32>) -> Option<u32>
    decreases ds.len(),
{
    if ds.len() == 0 {
        None
    } else if levels.contains_key(ds[0].path@) {
        Some(levels[ds[0].path@])
    } else {
        first_recorded(ds.drop_first(), levels)
    }
}

/// The device paths a brightness change writes to: every display, or
/// only those bound to `target`.
pub open spec fn write_paths(ds: Seq<DdciDisplay>, target: Option<u32>) -> Seq<Seq<char>>
    decreases ds.len(),
{
    if ds.len() == 0 {
        Seq::empty()
    } else {
        let rest = write_paths(ds.drop_last(), target);
        if target is None || ds.last().display_id == target { rest.push(ds.last().path@) } else { rest }
    }
}

fn first_recorded_exec(displays: &[DdciDisplay], levels: &StringHashMap<u32>) -> (r: Option<u32>)
    ensures
        r == first_recorded(displays@, levels@),
{
    let mut i: usize = 0;
    assert(displays@.skip(0) =~= displays@);
    while i < displays.len()
        invariant
            i <= displays@.len(),
            first_recorded(displays@, levels@) == first_recorded(displays@.skip(i as int), levels@),
        decreases displays@.len() - i,
    {
        assert(displays@.skip(i as int)[0] == displays@[i as int]);
        match levels.get(displays[i].path.as_str()) {
            Some(p) => return Some(*p),
            None => {},
        }
        assert(displays@.skip(i as int).drop_first() =~= displays@.skip(i + 1));
        i = i + 1;
    }
    None
}

/// Whether `key` names a device of `source`: the backlight's empty key,
/// or a DDC/CI display's path.
pub open spec fn is_device_key(source: BrightnessSource, key: Seq<char>) -> bool {
    match source {
        BrightnessSource::Backlight { .. } => key == Seq::<char>::empty(),
        BrightnessSource::Ddci2c { displays } => exists|i: int| 0 <= i < displays@.len() && displays@[i].path@ == key,
        BrightnessSource::NoSource => false,
    }
}

/// Whether `key` is a DDC/CI display's path in `source`.
pub open spec fn is_ddc_key(source: BrightnessSource, key: Seq<char>) -> bool {
    source is Ddci2c && is_device_key(source, key)
}

/// The level of each DDC/CI display whose first reading `(value, maximum)`
/// succeeded with a non-zero maximum, keyed by the display's path.
pub open spec fn ddc_levels(ds: Seq<DdciDisplay>, raws: Seq<Option<(u16, u16)>>) -> Map<Seq<char>, u32>
    decreases ds.len(),
{
    if ds.len() == 0 || raws.len() < ds.len() {
        Map::empty()
    } else {
        let prev = ddc_levels(ds.drop_last(), raws);
        match raws[ds.len() - 1] {
            Some((v, m)) => if m > 0 {
                prev.insert(ds.last().path@, ((v * 100) / (m as int)) as u32)
            } else {
                prev
            },
            None => prev,
        }
    }
}

/// The levels a module starts with: the backlight's when its level was
/// read, each readable display's for DDC/CI, none without a source.
pub open spec fn initial_levels(
    source: BrightnessSource,
    backlight_raw: Option<u32>,
    ddc_raw: Seq<Option<(u16, u16)>>,
) -> Map<Seq<char>, u32> {
    match source {
        BrightnessSource::Backlight { max_brightness, .. } => match backlight_raw {
            Some(cur) => if max_brightness > 0 {
                Map::empty().insert(Seq::<char>::empty(), ((cur * 100) / (max_brightness as int)) as u32)
            } else {
                Map::empty()
            },
            None => Map::empty(),
        },
        BrightnessSource::Ddci2c { displays } => ddc_levels(displays@, ddc_raw),
        BrightnessSource::NoSource => Map::empty(),
    }
}

/// Pick where brightness lives: the backlight when one was found with a
/// non-zero maximum, else the DDC/CI monitors that answered (labelled and
/// in connector order), else nothing. The monitors are only probed when
/// there is no usable backlight.
pub fn choose_source(backlight: Option<(String, u32)>, responsive: Vec<DdcCandidate>) -> (s: BrightnessSource)
    ensures
        match backlight {
            Some((device, max)) if max > 0 => s == BrightnessSource::Backlight { device, max_brightness: max },
            _ => if responsive@.len() > 0 {
                s is Ddci2c && s->displays@ == sorted_stable(responsive@.map_values(|c: DdcCandidate| display_of(c)))
            } else {
                s is NoSource
            },
        },
{
    match backlight {
        Some((device, max)) => {
            if max > 0 {
                return BrightnessSource::Backlight { device, max_brightness: max };
            }
        },
        None => {},
    }
    if responsive.len() > 0 {
        BrightnessSource::Ddci2c { displays: finish_displays(responsive) }
    } else {
        BrightnessSource::NoSource
    }
}

fn device_key_exec(source: &BrightnessSource, key: &str) -> (b: bool)
    ensures
        b == is_device_key(*source, key@),
{
    match source {
        BrightnessSource::Backlight { .. } => {
            assert(key@.len() == 0 ==> key@ =~= Seq::<char>::empty());
            key.is_empty()
        },
        BrightnessSource::Ddci2c { displays } => {
            let mut i: usize = 0;
            while i < displays.len()
                invariant
                    i <= displays@.len(),
                    *source is Ddci2c,
                    (*source)->displays == *displays,
                    forall|j: int| 0 <= j < i ==> displays@[j].path@ != key@,
                decreases displays@.len() - i,
            {
                if str_eq(displays[i].path.as_str(), key) {
                    assert(displays@[i as int].path@ == key@);
                    assert(exists|j: int| 0 <= j < displays@.len() && displays@[j].path@ == key@);
                    return true;
                }
                i = i + 1;
            }
            false
        },
        BrightnessSource::NoSource => false,
    }
}

/// The brightness module's state: where brightness lives, the last level
/// known for each device (the backlight's under the empty key, each
/// monitor's under its path), and each monitor's pending write.
pub struct BrightnessModule {
    percents: StringHashMap<u32>,
    pending: StringHashMap<u32>,
    source: BrightnessSource,
}

impl BrightnessModule {
    /// Levels are only kept for the source's devices, and pending writes
    /// only for its monitors.
    #[verifier::type_invariant]
    spec fn keys_are_devices(&self) -> bool {
        &&& forall|k: Seq<char>| #[trigger] self.percents@.contains_key(k) ==> is_device_key(self.source, k)
        &&& forall|k: Seq<char>| #[trigger] self.pending@.contains_key(k) ==> is_ddc_key(self.source, k)
    }

    pub closed spec fn levels(&self) -> Map<Seq<char>, u32> {
        self.percents@
    }

    /// The level waiting to be written to each monitor.
    pub closed spec fn pending(&self) -> Map<Seq<char>, u32> {
        self.pending@
    }

    pub closed spec fn spec_source(&self) -> BrightnessSource {
        self.source
    }

    /// The module for `source` with its first readings: the backlight's raw
    /// level (`None` when unreadable), and for DDC/CI one reading
    /// `(value, maximum)` per display in list order. Nothing is pending.
    pub fn from_readings(
        source: BrightnessSource,
        backlight_raw: Option<u32>,
        ddc_raw: &Vec<Option<(u16, u16)>>,
    ) -> (m: Self)
        requires
            match backlight_raw {
                Some(cur) => cur * 100 <= u32::MAX,
                None => true,
            },
            match source {
                BrightnessSource::Ddci2c { displays } => ddc_raw@.len() == displays@.len(),
                _ => true,
            },
        ensures
            m.spec_source() == source,
            m.levels() == initial_levels(source, backlight_raw, ddc_raw@),
            m.pending() == Map::<Seq<char>, u32>::empty(),
    {
        let mut percents: StringHashMap<u32> = StringHashMap::new();
        match &source {
            BrightnessSource::Backlight { max_brightness, .. } => {
                match backlight_raw {
                    Some(cur) => match backlight_percent(cur, *max_brightness) {
                        Some(p) => {
                            let e = string_from_chars(&[]);
                            assert(e@ =~= Seq::<char>::empty());
                            percents.insert(e, p);
                            assert(percents@ =~= Map::empty().insert(Seq::<char>::empty(), p));
                        },
                        None => {},
                    },
                    None => {},
                }
            },
            BrightnessSource::Ddci2c { displays } => {
                let mut i: usize = 0;
                while i < displays.len()
                    invariant
                        i <= displays@.len(),
                        ddc_raw@.len() == displays@.len(),
                        percents@ == ddc_levels(displays@.take(i as int), ddc_raw@),
                        forall|k: Seq<char>| #[trigger] percents@.contains_key(k) ==>
                            exists|j: int| 0 <= j < i && displays@[j].path@ == k,
                    decreases displays@.len() - i,
                {
                    proof {
                        assert(displays@.take(i + 1).drop_last() =~= displays@.take(i as int));
                        assert(displays@.take(i + 1).last() == displays@[i as int]);
                    }
                    match ddc_raw[i] {
                        Some((v, mx)) => match ddc_percent(v, mx) {
                            Some(p) => {
                                percents.insert(displays[i].path.clone(), p);
                            },
                            None => {},
                        },
                        None => {},
                    }
                    i = i + 1;
                }
                assert(displays@.take(i as int) =~= displays@);
            },
            BrightnessSource::NoSource => {},
        }
        proof {
            if source is Backlight {
                assert(Seq::<char>::empty() == Seq::<char>::empty());
            }
        }
        BrightnessModule { percents, pending: StringHashMap::new(), source }
    }

    /// Record a level read or written for a device; returns whether it
    /// changed (and so whether the bar must redraw). A key that is not one
    /// of the source's devices is ignored.
    pub fn record_percent(&mut self, path: &str, pct: u32) -> (changed: bool)
        ensures
            is_device_key(old(self).spec_source(), path@) ==> {
                &&& changed == !(old(self).levels().contains_key(path@) && old(self).levels()[path@] == pct)
                &&& final(self).levels() == old(self).levels().insert(path@, pct)
            },
            !is_device_key(old(self).spec_source(), path@) ==> !changed && final(self).levels() == old(self).levels(),
            final(self).pending() == old(self).pending(),
            final(self).spec_source() == old(self).spec_source(),
    {
        proof { use_type_invariant(&*self); }
        if !device_key_exec(&self.source, path) {
            return false;
        }
        let same = match self.percents.get(path) {
            Some(p) => *p == pct,
            None => false,
        };
        if !same {
            let mut levels: StringHashMap<u32> = StringHashMap::new();
            std::mem::swap(&mut levels, &mut self.percents);
            levels.insert(string_from_chars(chars_of(path).as_slice()), pct);
            std::mem::swap(&mut levels, &mut self.percents);
        } else {
            assert(self.percents@.insert(path@, pct) =~= self.percents@);
        }
        !same
    }

    /// Where brightness lives.
    pub fn source(&self) -> (s: &BrightnessSource)
        ensures
            *s == self.spec_source(),
    {
        &self.source
    }

    /// All DDC/CI displays; empty for the other sources.
    pub fn displays(&self) -> (d: &[DdciDisplay])
        ensures
            match self.spec_source() {
                BrightnessSource::Ddci2c { displays } => d@ == displays@,
                _ => d@.len() == 0,
            },
    {
        source_displays(&self.source)
    }

    /// The level for the cluster icon: the backlight's, or the first
    /// display's that has one; `None` exactly when no level is known.
    pub fn percent(&self) -> (r: Option<u32>)
        ensures
            r == match self.spec_source() {
                BrightnessSource::Backlight { .. } => if self.levels().contains_key(Seq::empty()) {
                    Some(self.levels()[Seq::empty()])
                } else {
                    None
                },
                BrightnessSource::Ddci2c { displays } => first_recorded(displays@, self.levels()),
                BrightnessSource::NoSource => None,
            },
            r is None <==> self.levels().is_empty(),
    {
        proof { use_type_invariant(self); }
        let r = match &self.source {
            BrightnessSource::Backlight { .. } => {
                let empty = string_from_chars(&[]);
                assert(empty@ =~= Seq::<char>::empty());
                match self.percents.get(empty.as_str()) {
                    Some(p) => Some(*p),
                    None => None,
                }
            },
            BrightnessSource::Ddci2c { displays } => first_recorded_exec(displays.as_slice(), &self.percents),
            BrightnessSource::NoSource => None,
        };
        proof {
            if r is None && !self.percents@.is_empty() {
                let k = self.percents@.dom().choose();
                assert(self.percents@.dom().contains(k));
                assert(is_device_key(self.source, k));
                if self.source is Ddci2c {
                    let displays = self.source->displays;
                    let i = choose|i: int| 0 <= i < displays@.len() && displays@[i].path@ == k;
                    lemma_first_recorded_some(displays@, self.percents@, i);
                }
            }
            if r is Some && self.percents@.is_empty() {
                if self.source is Ddci2c {
                    lemma_first_recorded_empty(self.source->displays@, self.percents@);
                }
            }
        }
        r
    }

    /// The level of the display bound to `display_id` (DDC/CI only).
    pub fn percent_for(&self, display_id: u32) -> (r: Option<u32>)
        ensures
            r == match self.spec_source() {
                BrightnessSource::Ddci2c { displays } => match find_first(displays@, display_id) {
                    Some(i) => if self.levels().contains_key(displays@[i].path@) {
                        Some(self.levels()[displays@[i].path@])
                    } else {
                        None
                    },
                    None => None,
                },
                _ => None,
            },
    {
        match &self.source {
            BrightnessSource::Ddci2c { displays } => match find_display(displays.as_slice(), display_id) {
                Some(i) => {
                    proof { lemma_find_first_some(displays@, display_id, i as int); }
                    match self.percents.get(displays[i].path.as_str()) {
                        Some(p) => Some(*p),
                        None => None,
                    }
                },
                None => {
                    proof { lemma_find_first_none(displays@, display_id); }
                    None
                },
            },
            _ => None,
        }
    }

    /// Friendly label for the display bound to `display_id`.
    pub fn label_for(&self, display_id: u32) -> (r: Option<String>)
        ensures
            match self.spec_source() {
                BrightnessSource::Ddci2c { displays } => match find_first(displays@, display_id) {
                    Some(i) => r is Some && r.unwrap()@ == spec_display_label(displays@[i]),
                    None => r is None,
                },
                _ => r is None,
            },
    {
        let ds = source_displays(&self.source);
        proof {
            if !(self.source is Ddci2c) {
                assert(ds@ =~= Seq::<DdciDisplay>::empty());
                assert(find_first(ds@, display_id) is None);
            }
        }
        label_for(ds, display_id)
    }

    /// The devices a brightness change writes to: every DDC/CI display, or
    /// only the one bound to `target`; none for the other sources (the
    /// backlight is set through `brightnessctl`).
    pub fn write_paths(&self, target: Option<u32>) -> (r: Vec<String>)
        ensures
            r@.map_values(|p: String| p@) == match self.spec_source() {
                BrightnessSource::Ddci2c { displays } => write_paths(displays@, target),
                _ => Seq::empty(),
            },
    {
        let ds = source_displays(&self.source);
        let mut out: Vec<String> = Vec::new();
        let mut i: usize = 0;
        while i < ds.len()
            invariant
                i <= ds@.len(),
                out@.map_values(|p: String| p@) == write_paths(ds@.take(i as int), target),
            decreases ds@.len() - i,
        {
            proof {
                assert(ds@.take(i + 1).drop_last() =~= ds@.take(i as int));
                assert(ds@.take(i + 1).last() == ds@[i as int]);
            }
            let hit = match target {
                None => true,
                Some(t) => match ds[i].display_id {
                    Some(id) => id == t,
                    None => false,
                },
            };
            if hit {
                let ghost before = out@;
                out.push(ds[i].path.clone());
                assert(out@.map_values(|p: String| p@) =~= before.map_values(|p: String| p@).push(ds@[i as int].path@));
            }
            i = i + 1;
        }
        assert(ds@.take(i as int) =~= ds@);
        proof {
            if !(self.source is Ddci2c) {
                assert(ds@ =~= Seq::<DdciDisplay>::empty());
            }
        }
        out
    }

    /// Ask for brightness `percent` (capped at 100) on `target`, or on every
    /// display when `None`. The backlight's level is recorded at once (it is
    /// then set through `brightnessctl`); each chosen monitor gets the level
    /// as its pending write, and the monitors whose writer must wake are
    /// returned.
    pub fn request(&mut self, target: Option<u32>, percent: u32) -> (r: Vec<String>)
        ensures
            ({
                let pct = if percent > 100 { 100u32 } else { percent };
                &&& final(self).spec_source() == old(self).spec_source()
                &&& match old(self).spec_source() {
                    BrightnessSource::Backlight { .. } => {
                        &&& final(self).levels() == old(self).levels().insert(Seq::empty(), pct)
                        &&& final(self).pending() == old(self).pending()
                        &&& r@.len() == 0
                    },
                    BrightnessSource::Ddci2c { displays } => {
                        let paths = write_paths(displays@, target);
                        &&& final(self).levels() == old(self).levels()
                        &&& r@.map_values(|p: String| p@) == paths
                        &&& final(self).pending() == Map::new(
                            |k: Seq<char>| old(self).pending().contains_key(k) || paths.contains(k),
                            |k: Seq<char>| if paths.contains(k) { pct } else { old(self).pending()[k] },
                        )
                    },
                    BrightnessSource::NoSource => {
                        &&& final(self).levels() == old(self).levels()
                        &&& final(self).pending() == old(self).pending()
                        &&& r@.len() == 0
                    },
                }
            }),
    {
        proof { use_type_invariant(&*self); }
        let pct = clamp_percent(percent);
        let is_backlight = match &self.source {
            BrightnessSource::Backlight { .. } => true,
            _ => false,
        };
        if is_backlight {
            let empty = string_from_chars(&[]);
            assert(empty@ =~= Seq::<char>::empty());
            self.record_percent(empty.as_str(), pct);
            return Vec::new();
        }
        let paths = self.write_paths(target);
        let ghost all = paths@.map_values(|p: String| p@);
        let ghost start = self.pending@;
        proof {
            assert forall|k: int| 0 <= k < all.len() implies is_ddc_key(self.source, #[trigger] all[k]) by {
                lemma_write_paths_devices(self.source, target, k);
            }
        }
        let mut pending: StringHashMap<u32> = StringHashMap::new();
        std::mem::swap(&mut pending, &mut self.pending);
        let mut i: usize = 0;
        while i < paths.len()
            invariant
                i <= paths@.len(),
                all == paths@.map_values(|p: String| p@),
                start == old(self).pending@,
                pending@ == Map::new(
                    |k: Seq<char>| start.contains_key(k) || all.take(i as int).contains(k),
                    |k: Seq<char>| if all.take(i as int).contains(k) { pct } else { start[k] },
                ),
            decreases paths@.len() - i,
        {
            let ghost before = pending@;
            pending.insert(paths[i].clone(), pct);
            assert(pending@ == before.insert(all[i as int], pct));
            proof {
                assert(all[i as int] == paths@[i as int]@);
                assert forall|k: Seq<char>| all.take(i + 1).contains(k) <==> (all.take(i as int).contains(k) || k == all[i as int]) by {
                    if all.take(i + 1).contains(k) {
                        let t = all.take(i + 1);
                        let j = choose|j: int| 0 <= j < t.len() && t[j] == k;
                        if j < i {
                            assert(all.take(i as int)[j] == k);
                        }
                    }
                    if all.take(i as int).contains(k) {
                        let t = all.take(i as int);
                        let j = choose|j: int| 0 <= j < t.len() && t[j] == k;
                        assert(all.take(i + 1)[j] == k);
                    }
                    if k == all[i as int] {
                        assert(all.take(i + 1)[i as int] == k);
                    }
                }
let ghost nxt = all.take(i + 1);
                let ghost prv = all.take(i as int);
                assert forall|k: Seq<char>| #[trigger] pending@.contains_key(k) == (start.contains_key(k) || nxt.contains(k)) by {
                    assert(before.contains_key(k) == (start.contains_key(k) || prv.contains(k)));
                }
                assert forall|k: Seq<char>| #[trigger] pending@.contains_key(k) implies
                    pending@[k] == (if nxt.contains(k) { pct } else { start[k] }) by {
                    if k != all[i as int] {
                        assert(before.contains_key(k));
                        assert(before[k] == (if prv.contains(k) { pct } else { start[k] }));
                        assert(nxt.contains(k) == prv.contains(k));
                    } else {
                        assert(nxt[i as int] == k);
                    }
                }
                assert(pending@ =~= Map::new(
                    |k: Seq<char>| start.contains_key(k) || all.take(i + 1).contains(k),
                    |k: Seq<char>| if all.take(i + 1).contains(k) { pct } else { start[k] },
                ));
            }
            i = i + 1;
        }
        proof {
            assert(all.take(i as int) =~= all);
            assert forall|k: Seq<char>| #[trigger] pending@.contains_key(k) implies is_ddc_key(self.source, k) by {
                if all.contains(k) {
                    let j = choose|j: int| 0 <= j < all.len() && all[j] == k;
                    assert(is_ddc_key(self.source, all[j]));
                } else {
                    assert(start.contains_key(k));
                }
            }
        }
        std::mem::swap(&mut pending, &mut self.pending);
        paths
    }

    /// Take a monitor's pending write, leaving none; the writer calls this
    /// when it wakes.
    pub fn take_pending(&mut self, path: &str) -> (r: Option<u32>)
        ensures
            r == (if old(self).pending().contains_key(path@) { Some(old(self).pending()[path@]) } else { None }),
            final(self).pending() == old(self).pending().remove(path@),
            final(self).levels() == old(self).levels(),
            final(self).spec_source() == old(self).spec_source(),
    {
        proof { use_type_invariant(&*self); }
        let r = match self.pending.get(path) {
            Some(p) => Some(*p),
            None => None,
        };
        let mut pending: StringHashMap<u32> = StringHashMap::new();
        std::mem::swap(&mut pending, &mut self.pending);
        pending.remove(path);
        std::mem::swap(&mut pending, &mut self.pending);
        r
    }
}

proof fn lemma_first_recorded_some(ds: Seq<DdciDisplay>, levels: Map<Seq<char>, u32>, i: int)
    requires
        0 <= i < ds.len(),
        levels.contains_key(ds[i].path@),
    ensures
        first_recorded(ds, levels) is Some,
    decreases ds.len(),
{
    if i > 0 && !levels.contains_key(ds[0].path@) {
        assert(ds.drop_first()[i - 1] == ds[i]);
        lemma_first_recorded_some(ds.drop_first(), levels, i - 1);
    }
}

proof fn lemma_first_recorded_empty(ds: Seq<DdciDisplay>, levels: Map<Seq<char>, u32>)
    requires
        levels.is_empty(),
    ensures
        first_recorded(ds, levels) is None,
    decreases ds.len(),
{
    if ds.len() > 0 {
        assert(!levels.dom().contains(ds[0].path@));
        lemma_first_recorded_empty(ds.drop_first(), levels);
    }
}

proof fn lemma_write_paths_devices(source: BrightnessSource, target: Option<u32>, k: int)
    requires
        source is Ddci2c,
        0 <= k < write_paths(source->displays@, target).len(),
    ensures
        is_ddc_key(source, write_paths(source->displays@, target)[k]),
{
    lemma_write_paths_members(source->displays@, target, k);
}

proof fn lemma_write_paths_members(ds: Seq<DdciDisplay>, target: Option<u32>, k: int)
    requires
        0 <= k < write_paths(ds, target).len(),
    ensures
        exists|i: int| 0 <= i < ds.len() && ds[i].path@ == write_paths(ds, target)[k],
    decreases ds.len(),
{
    if ds.len() > 0 {
        let p = ds.drop_last();
        let rest = write_paths(p, target);
        if k < rest.len() {
            lemma_write_paths_members(p, target, k);
            let i = choose|i: int| 0 <= i < p.len() && p[i].path@ == rest[k];
            assert(ds[i] == p[i]);
        } else {
            assert(ds[ds.len() - 1] == ds.last());
        }
    }
}

} // verus!
