//! Sway / i3 IPC framing and command construction.
use vstd::prelude::*;
use vstd::bytes::*;
use crate::text::{chars_of, push_all, str_eq, string_from_chars};
use crate::workspace::{id_view, Workspace, WorkspaceChange, WorkspaceId, WorkspaceState, WorkspaceView};

verus! {

/// The six magic bytes `i3-ipc` that open every IPC message.
pub open spec fn magic() -> Seq<u8> {
    seq![0x69u8, 0x33u8, 0x2du8, 0x69u8, 0x70u8, 0x63u8]
}

/// The framed bytes of one message: magic, payload length and type (both
/// little-endian `u32`), then the payload.
pub open spec fn spec_frame(msg_type: u32, payload: Seq<u8>) -> Seq<u8> {
    magic() + spec_u32_to_le_bytes(payload.len() as u32) + spec_u32_to_le_bytes(msg_type) + payload
}

fn magic_bytes() -> (v: Vec<u8>)
    ensures
        v@ == magic(),
{
    let v: Vec<u8> = vec![0x69u8, 0x33u8, 0x2du8, 0x69u8, 0x70u8, 0x63u8];
    assert(v@ =~= magic());
    v
}

/// Frame a message for the sway IPC socket.
pub fn encode_message(msg_type: u32, payload: &[u8]) -> (buf: Vec<u8>)
    requires
        payload@.len() <= u32::MAX,
    ensures
        buf@ == spec_frame(msg_type, payload@),
{
    let mut buf = magic_bytes();
    let mut len_bytes = u32_to_le_bytes(payload.len() as u32);
    buf.append(&mut len_bytes);
    let mut ty_bytes = u32_to_le_bytes(msg_type);
    buf.append(&mut ty_bytes);
    let mut i: usize = 0;
    while i < payload.len()
        invariant
            i <= payload@.len(),
            buf@ == magic() + spec_u32_to_le_bytes(payload@.len() as u32)
                + spec_u32_to_le_bytes(msg_type) + payload@.subrange(0, i as int),
        decreases payload@.len() - i,
    {
        buf.push(payload[i]);
        i = i + 1;
        assert(payload@.subrange(0, i as int) =~= payload@.subrange(0, i - 1).push(payload@[i - 1]));
    }
    assert(payload@.subrange(0, payload@.len() as int) =~= payload@);
    buf
}


/// `RUN_COMMAND` message type.
pub const MSG_RUN_COMMAND: u32 = 0;
/// `GET_WORKSPACES` message type.
pub const MSG_GET_WORKSPACES: u32 = 1;
/// `SUBSCRIBE` message type.
pub const MSG_SUBSCRIBE: u32 = 2;
/// `GET_OUTPUTS` message type.
pub const MSG_GET_OUTPUTS: u32 = 3;
/// Event type of workspace events.
pub const EVENT_WORKSPACE: u32 = 0x80000000;
/// Event type of window events.
pub const EVENT_WINDOW: u32 = 0x80000003;
/// Length of a message header.
pub const HEADER_LEN: usize = 14;

/// Reads the payload length and message type out of a 14-byte header,
/// or `None` when the header does not start with the magic bytes.
pub open spec fn spec_decode_header(h: Seq<u8>) -> Option<(u32, u32)> {
    if h.take(6) == magic() {
        Some((spec_u32_from_le_bytes(h.subrange(6, 10)), spec_u32_from_le_bytes(h.subrange(10, 14))))
    } else {
        None
    }
}

/// Decode a message header: `(payload_len, msg_type)`, or `None` on bad magic.
pub fn decode_header(header: &[u8]) -> (r: Option<(u32, u32)>)
    requires
        header@.len() == HEADER_LEN,
    ensures
        r == spec_decode_header(header@),
{
    let m = magic_bytes();
    let mut i: usize = 0;
    while i < 6
        invariant
            header@.len() == 14,
            m@ == magic(),
            i <= 6,
            forall|k: int| 0 <= k < i ==> header@[k] == m@[k],
        decreases 6 - i,
    {
        if header[i] != m[i] {
            assert(header@.take(6)[i as int] != magic()[i as int]);
            return None;
        }
        i = i + 1;
    }
    assert(header@.take(6) =~= magic());
    let len_bytes = slice_range(header, 6, 10);
    let ty_bytes = slice_range(header, 10, 14);
    let len = u32_from_le_bytes(len_bytes.as_slice());
    let ty = u32_from_le_bytes(ty_bytes.as_slice());
    Some((len, ty))
}

fn slice_range(s: &[u8], from: usize, to: usize) -> (v: Vec<u8>)
    requires
        from <= to <= s@.len(),
    ensures
        v@ == s@.subrange(from as int, to as int),
{
    let mut v: Vec<u8> = Vec::new();
    let mut i: usize = from;
    while i < to
        invariant
            from <= i <= to <= s@.len(),
            v@ == s@.subrange(from as int, i as int),
        decreases to - i,
    {
        v.push(s[i]);
        i = i + 1;
        assert(s@.subrange(from as int, i as int) =~= s@.subrange(from as int, i - 1).push(s@[i - 1]));
    }
    v
}

/// Decoding the header of a framed message gives back the payload length
/// and the message type it was framed with.
pub proof fn law_header_roundtrip(msg_type: u32, payload: Seq<u8>)
    requires
        payload.len() <= u32::MAX,
    ensures
        spec_decode_header(spec_frame(msg_type, payload).take(14))
            == Some((payload.len() as u32, msg_type)),
{
    lemma_auto_spec_u32_to_from_le_bytes();
    let f = spec_frame(msg_type, payload);
    let h = f.take(14);
    let l = spec_u32_to_le_bytes(payload.len() as u32);
    let t = spec_u32_to_le_bytes(msg_type);
    assert(h.take(6) =~= magic());
    assert(h.subrange(6, 10) =~= l);
    assert(h.subrange(10, 14) =~= t);
}

/// How one character of a name is written inside a sway string.
pub open spec fn escape_char(c: char) -> Seq<char> {
    if c == '\\' {
        seq!['\\', '\\']
    } else if c == '"' {
        seq!['\\', '"']
    } else {
        seq![c]
    }
}

/// A name with every backslash doubled and every quote backslash-prefixed.
pub open spec fn escaped(s: Seq<char>) -> Seq<char>
    decreases s.len(),
{
    if s.len() == 0 {
        Seq::empty()
    } else {
        escaped(s.drop_last()) + escape_char(s.last())
    }
}

/// A name as a quoted sway command token.
pub open spec fn spec_sway_quote(s: Seq<char>) -> Seq<char> {
    seq!['"'] + escaped(s) + seq!['"']
}

/// How sway reads the inside of a quoted string: a backslash takes the
/// next character literally.
pub open spec fn unescape(s: Seq<char>) -> Seq<char>
    decreases s.len(),
{
    if s.len() == 0 {
        Seq::empty()
    } else if s[0] == '\\' && s.len() >= 2 {
        seq![s[1]] + unescape(s.skip(2))
    } else {
        seq![s[0]] + unescape(s.skip(1))
    }
}

/// Where sway's parser ends a quoted string whose inside starts at `s`:
/// the number of characters before the first quote that no backslash
/// escapes, if there is one.
pub open spec fn quoted_body_len(s: Seq<char>) -> Option<nat>
    decreases s.len(),
{
    if s.len() == 0 {
        None
    } else if s[0] == '"' {
        Some(0)
    } else if s[0] == '\\' {
        if s.len() >= 2 {
            match quoted_body_len(s.skip(2)) {
                Some(n) => Some(n + 2),
                None => None,
            }
        } else {
            None
        }
    } else {
        match quoted_body_len(s.skip(1)) {
            Some(n) => Some(n + 1),
            None => None,
        }
    }
}

proof fn lemma_escaped_prepend(c: char, t: Seq<char>)
    ensures
        escaped(seq![c] + t) == escape_char(c) + escaped(t),
    decreases t.len(),
{
    let s = seq![c] + t;
    if t.len() == 0 {
        assert(s =~= seq![c]);
        assert(s.drop_last() =~= Seq::<char>::empty());
        assert(escaped(s) == escaped(s.drop_last()) + escape_char(s.last()));
        assert(escaped(s.drop_last()) == Seq::<char>::empty());
        assert(escaped(s) =~= escape_char(c));
        assert(escape_char(c) + escaped(t) =~= escape_char(c));
    } else {
        lemma_escaped_prepend(c, t.drop_last());
        assert(s.drop_last() =~= seq![c] + t.drop_last());
        assert(s.last() == t.last());
        assert(escaped(s) == escaped(s.drop_last()) + escape_char(s.last()));
        assert(escaped(t) == escaped(t.drop_last()) + escape_char(t.last()));
        assert(escape_char(c) + escaped(t) =~= escape_char(c) + escaped(t.drop_last()) + escape_char(t.last()));
    }
}

/// A quoted name is one token that gives the name back: sway's parser
/// ends the string exactly at the closing quote whatever follows it (a
/// `;` and another command included), and unescaping its inside yields
/// the name.
pub proof fn law_sway_quote_roundtrip(name: Seq<char>, rest: Seq<char>)
    ensures
        unescape(escaped(name)) == name,
        quoted_body_len(escaped(name) + seq!['"'] + rest) == Some(escaped(name).len()),
        spec_sway_quote(name) + rest == seq!['"'] + (escaped(name) + seq!['"'] + rest),
    decreases name.len(),
{
    assert(spec_sway_quote(name) + rest =~= seq!['"'] + (escaped(name) + seq!['"'] + rest));
    if name.len() == 0 {
        assert(escaped(name) =~= Seq::<char>::empty());
        assert(escaped(name) + seq!['"'] + rest =~= seq!['"'] + rest);
    } else {
        let c = name[0];
        let t = name.skip(1);
        assert(name =~= seq![c] + t);
        lemma_escaped_prepend(c, t);
        law_sway_quote_roundtrip(t, rest);
        let e = escape_char(c);
        let et = escaped(t);
        assert(escaped(name) == e + et);
        assert(e + et + seq!['"'] + rest =~= e + (et + seq!['"'] + rest));
        if c == '\\' || c == '"' {
            assert((e + et).skip(2) =~= et);
            assert((e + (et + seq!['"'] + rest)).skip(2) =~= et + seq!['"'] + rest);
            assert(unescape(e + et) == seq![c] + unescape(et));
        } else {
            assert((e + et).skip(1) =~= et);
            assert((e + (et + seq!['"'] + rest)).skip(1) =~= et + seq!['"'] + rest);
            assert(unescape(e + et) == seq![c] + unescape(et));
        }
        assert(seq![c] + t =~= name);
    }
}

fn push_quoted(out: &mut Vec<char>, name: &str)
    ensures
        final(out)@ == old(out)@ + spec_sway_quote(name@),
{
    let cs = chars_of(name);
    out.push('"');
    let ghost start = out@;
    let mut i: usize = 0;
    while i < cs.len()
        invariant
            i <= cs@.len(),
            cs@ == name@,
            start == old(out)@.push('"'),
            out@ == start + escaped(cs@.take(i as int)),
        decreases cs@.len() - i,
    {
        let c = cs[i];
        if c == '\\' {
            out.push('\\');
            out.push('\\');
        } else if c == '"' {
            out.push('\\');
            out.push('"');
        } else {
            out.push(c);
        }
        i = i + 1;
        assert(cs@.take(i as int).drop_last() =~= cs@.take(i - 1));
        assert(out@ =~= start + escaped(cs@.take(i as int)));
    }
    assert(cs@.take(i as int) =~= name@);
    out.push('"');
    assert(out@ =~= old(out)@ + spec_sway_quote(name@));
}

/// Quote a workspace or output name so sway's command parser reads it as
/// one string token.
pub fn sway_quote(name: &str) -> (r: String)
    ensures
        r@ == spec_sway_quote(name@),
{
    let mut out: Vec<char> = Vec::new();
    push_quoted(&mut out, name);
    string_from_chars(out.as_slice())
}

/// The command that focuses a workspace, first switching to its output
/// when one is given.
pub open spec fn spec_activate_command(ws: Seq<char>, output: Option<Seq<char>>) -> Seq<char> {
    match output {
        Some(o) => "focus output "@ + spec_sway_quote(o) + "; workspace "@ + spec_sway_quote(ws),
        None => "workspace "@ + spec_sway_quote(ws),
    }
}

/// The workspace backend for sway: it activates workspaces through
/// `RUN_COMMAND`; the event session itself runs in the application.
#[derive(Default)]
pub struct SwayBackend;

impl SwayBackend {
    /// Build the `RUN_COMMAND` payload that activates workspace `id`.
    pub fn activate_command(&self, id: &WorkspaceId, output: Option<&str>) -> (r: String)
        ensures
            r@ == spec_activate_command(id.0@, match output { Some(o) => Some(o@), None => None }),
    {
        let mut out: Vec<char> = Vec::new();
        match output {
            Some(o) => {
                let a = chars_of("focus output ");
                push_all(&mut out, a.as_slice());
                push_quoted(&mut out, o);
                let b = chars_of("; workspace ");
                push_all(&mut out, b.as_slice());
            }
            None => {
                let b = chars_of("workspace ");
                push_all(&mut out, b.as_slice());
            }
        }
        push_quoted(&mut out, id.0.as_str());
        string_from_chars(out.as_slice())
    }
}

/// The longest pause between reconnection attempts, in milliseconds.
pub const MAX_RECONNECT_DELAY_MS: u64 = 30_000;

/// The pause before the next reconnection attempt: double the last one,
/// capped at thirty seconds.
pub fn next_reconnect_delay(delay_ms: u64) -> (r: u64)
    requires
        delay_ms <= u64::MAX / 2,
    ensures
        r == if delay_ms * 2 < MAX_RECONNECT_DELAY_MS { delay_ms * 2 } else { MAX_RECONNECT_DELAY_MS as int },
{
    let d = delay_ms * 2;
    if d < MAX_RECONNECT_DELAY_MS { d } else { MAX_RECONNECT_DELAY_MS }
}

/// Starting from any pause between one and thirty seconds, the next pause
/// is again in that range and no shorter than the last.
pub proof fn law_reconnect_delay_bounded(delay_ms: u64)
    requires
        1000 <= delay_ms <= MAX_RECONNECT_DELAY_MS,
    ensures
        ({
            let n = if delay_ms * 2 < MAX_RECONNECT_DELAY_MS { delay_ms * 2 } else { MAX_RECONNECT_DELAY_MS as int };
            delay_ms <= n && 1000 <= n <= MAX_RECONNECT_DELAY_MS
        }),
{
}

} // verus!

verus! {

/// A workspace entry of a `GET_WORKSPACES` reply, as the compositor sends it.
pub struct RawWorkspace {
    pub name: String,
    pub focused: bool,
    pub urgent: bool,
    pub output: Option<String>,
}

/// A workspace event, as the compositor sends it.
pub struct RawEvent {
    pub change: String,
    pub current: Option<RawWorkspace>,
}

/// What a workspace event asks the bar to do.
pub enum EventAction {
    /// The named workspace gained focus.
    Focus(WorkspaceId),
    /// The set of workspaces changed; fetch a fresh snapshot.
    Refetch,
    Ignore,
}

/// The name of the last focused workspace of a reply.
pub open spec fn last_focused(raws: Seq<RawWorkspace>) -> Option<Seq<char>>
    decreases raws.len(),
{
    if raws.len() == 0 {
        None
    } else if raws.last().focused {
        Some(raws.last().name@)
    } else {
        last_focused(raws.drop_last())
    }
}

/// The workspace a reply entry describes.
pub open spec fn workspace_of(r: RawWorkspace) -> WorkspaceView {
    WorkspaceView {
        id: r.name@,
        name: r.name@,
        active: r.focused,
        urgent: r.urgent,
        output: r.output.deep_view(),
    }
}

fn clone_opt_string(o: &Option<String>) -> (r: Option<String>)
    ensures
        r == *o,
{
    match o {
        Some(s) => Some(s.clone()),
        None => None,
    }
}

/// Build the bar's snapshot from a `GET_WORKSPACES` reply: one workspace per
/// entry, in order, and the last focused entry as the active one.
pub fn workspace_state_from_raw(raws: &Vec<RawWorkspace>) -> (st: WorkspaceState)
    ensures
        st@.workspaces == raws@.map_values(|r: RawWorkspace| workspace_of(r)),
        st@.active == last_focused(raws@),
{
    let mut workspaces: Vec<Workspace> = Vec::new();
    let mut active: Option<WorkspaceId> = None;
    let mut i: usize = 0;
    while i < raws.len()
        invariant
            i <= raws@.len(),
            workspaces@.map_values(|w: Workspace| w@)
                == raws@.take(i as int).map_values(|r: RawWorkspace| workspace_of(r)),
            id_view(active) == last_focused(raws@.take(i as int)),
        decreases raws@.len() - i,
    {
        let r = &raws[i];
        let id = WorkspaceId(r.name.clone());
        if r.focused {
            active = Some(id.clone());
        }
        let w = Workspace {
            id,
            name: r.name.clone(),
            active: r.focused,
            urgent: r.urgent,
            output: clone_opt_string(&r.output),
        };
        assert(w@ == workspace_of(raws@[i as int]));
        let ghost old_ws = workspaces@;
        workspaces.push(w);
        assert(workspaces@.map_values(|w: Workspace| w@)
            =~= old_ws.map_values(|w: Workspace| w@).push(workspace_of(raws@[i as int])));
        i = i + 1;
        proof {
            let t = raws@.take(i as int);
            assert(t.drop_last() =~= raws@.take(i - 1));
            assert(workspaces@.map_values(|w: Workspace| w@)
                =~= t.map_values(|r: RawWorkspace| workspace_of(r)));
        }
    }
    assert(raws@.take(i as int) =~= raws@);
    WorkspaceState { workspaces, active }
}

/// The bar's reaction to a workspace event whose `change` field is `change`.
pub open spec fn spec_classify(change: Seq<char>, current: Option<RawWorkspace>) -> Option<Option<Seq<char>>> {
    if change == "focus"@ {
        match current {
            Some(w) => Some(Some(w.name@)),
            None => None,
        }
    } else if change == "init"@ || change == "empty"@ || change == "move"@ || change == "rename"@
        || change == "reload"@ || change == "urgent"@ {
        Some(None)
    } else {
        None
    }
}

/// `Some(Some(name))` is a focus of `name`, `Some(None)` a refetch, `None`
/// nothing to do.
pub open spec fn action_model(a: EventAction) -> Option<Option<Seq<char>>> {
    match a {
        EventAction::Focus(id) => Some(Some(id.0@)),
        EventAction::Refetch => Some(None),
        EventAction::Ignore => None,
    }
}

/// Decide what a workspace event means for the bar: a focus change to the
/// named workspace, a refetch for structural changes, or nothing.
pub fn classify_event(ev: RawEvent) -> (a: EventAction)
    ensures
        action_model(a) == spec_classify(ev.change@, ev.current),
{
    let change = ev.change.as_str();
    if str_eq(change, "focus") {
        match ev.current {
            Some(w) => EventAction::Focus(WorkspaceId(w.name)),
            None => EventAction::Ignore,
        }
    } else if str_eq(change, "init") || str_eq(change, "empty") || str_eq(change, "move")
        || str_eq(change, "rename") || str_eq(change, "reload") || str_eq(change, "urgent") {
        EventAction::Refetch
    } else {
        EventAction::Ignore
    }
}

/// The container of a window event.
pub struct RawContainer {
    pub name: Option<String>,
    pub focused: bool,
}

/// A window event, as the compositor sends it.
pub struct RawWindowEvent {
    pub change: String,
    pub container: Option<RawContainer>,
}

/// The title a window event announces for the focused window.
pub open spec fn spec_window_event_title(change: Seq<char>, container: Option<RawContainer>) -> Option<Seq<char>> {
    if change == "focus"@ || change == "title"@ {
        match container {
            Some(c) => if c.focused { c.name.deep_view() } else { None },
            None => None,
        }
    } else {
        None
    }
}

/// The new focused-window title a window event carries, if any: only
/// `focus` and `title` changes of a focused container with a name count.
pub fn window_event_title(ev: RawWindowEvent) -> (t: Option<String>)
    ensures
        t.deep_view() == spec_window_event_title(ev.change@, ev.container),
{
    let change = ev.change.as_str();
    if str_eq(change, "focus") || str_eq(change, "title") {
        match ev.container {
            Some(c) => if c.focused { c.name } else { None },
            None => None,
        }
    } else {
        None
    }
}

/// The focus change a workspace event reports: the current workspace of a
/// `focus` event, nothing otherwise.
pub fn workspace_change(ev: RawEvent) -> (c: WorkspaceChange)
    ensures
        id_view(c.new_active) == (if ev.change@ == "focus"@ {
            match ev.current { Some(w) => Some(w.name@), None => None }
        } else {
            None
        }),
{
    let is_focus = str_eq(ev.change.as_str(), "focus");
    let new_active = if is_focus {
        match ev.current {
            Some(w) => Some(WorkspaceId(w.name)),
            None => None,
        }
    } else {
        None
    };
    WorkspaceChange { new_active }
}

} // verus!
