//! Workspace tracking over the `ext-workspace-v1` Wayland protocol: the
//! per-handle state the compositor streams, and the snapshot sent to the bar
//! on every `done`.
use std::collections::HashMap;
use vstd::prelude::*;
use vstd::hash_map::StringHashMap;
use vstd::std_specs::iter::IteratorSpec;
use crate::sort::{
    is_sorted, lemma_seq_lt_asym, lemma_seq_lt_neg_trans, lemma_sorted_multiset,
    lemma_sorted_len, lemma_sorted_stable_is_sorted, sort_stable, sorted_stable, strict_weak_on, Ranked,
};
use crate::workspace::{find_first_active, first_active, id_view, Workspace, WorkspaceId, WorkspaceState};

verus! {

broadcast use vstd::std_specs::hash::group_hash_axioms;

/// What the compositor has told us about one workspace handle so far.
pub struct WsBuilder {
    pub name: Option<String>,
    pub active: bool,
    pub urgent: bool,
}

/// An event of the workspace manager or of one workspace handle, keyed by
/// the handle's protocol id.
pub enum ExtWorkspaceEvent {
    /// The manager announced a new workspace handle.
    Workspace(u32),
    /// A handle's name.
    Name(u32, String),
    /// A handle's state bits, as (active, urgent).
    State(u32, bool, bool),
    /// A handle was removed.
    Removed(u32),
    /// The manager finished a batch of changes.
    Done,
    /// Anything the bar ignores.
    Other,
}

/// Handle state accumulated between `done` events.
pub struct ExtWorkspaceModel {
    workspaces: HashMap<u32, WsBuilder>,
    by_name: StringHashMap<u32>,
}

/// The bar's entry for a named handle.
pub open spec fn ws_from(b: WsBuilder) -> Workspace {
    Workspace {
        id: WorkspaceId(b.name.unwrap()),
        name: b.name.unwrap(),
        active: b.active,
        urgent: b.urgent,
        output: None,
    }
}

/// The entries of the named builders of a list, in order.
pub open spec fn named_list(bs: Seq<WsBuilder>) -> Seq<Workspace>
    decreases bs.len(),
{
    if bs.len() == 0 {
        Seq::empty()
    } else if bs.last().name is Some {
        named_list(bs.drop_last()).push(ws_from(bs.last()))
    } else {
        named_list(bs.drop_last())
    }
}

proof fn lemma_named_list_member(bs: Seq<WsBuilder>, w: Workspace)
    ensures
        named_list(bs).contains(w) <==> exists|k: int|
            0 <= k < bs.len() && (#[trigger] bs[k]).name is Some && ws_from(bs[k]) == w,
    decreases bs.len(),
{
    if bs.len() > 0 {
        let p = bs.drop_last();
        lemma_named_list_member(p, w);
        if named_list(bs).contains(w) {
            if bs.last().name is Some && w == ws_from(bs.last()) {
                assert(bs[bs.len() - 1] == bs.last());
            } else {
                if bs.last().name is Some {
                    let j = choose|j: int| 0 <= j < named_list(bs).len() && named_list(bs)[j] == w;
                    assert(j < named_list(p).len());
                    assert(named_list(p)[j] == w);
                }
                let k = choose|k: int| 0 <= k < p.len() && (#[trigger] p[k]).name is Some && ws_from(p[k]) == w;
                assert(bs[k] == p[k]);
            }
        }
        if exists|k: int| 0 <= k < bs.len() && (#[trigger] bs[k]).name is Some && ws_from(bs[k]) == w {
            let k = choose|k: int| 0 <= k < bs.len() && (#[trigger] bs[k]).name is Some && ws_from(bs[k]) == w;
            if k == bs.len() - 1 {
                assert(named_list(bs).last() == w);
            } else {
                assert(p[k] == bs[k]);
                let j = choose|j: int| 0 <= j < named_list(p).len() && named_list(p)[j] == w;
                if bs.last().name is Some {
                    assert(named_list(bs)[j] == w);
                }
            }
        }
    }
}

impl ExtWorkspaceModel {
    /// The handles seen so far, by protocol id.
    pub closed spec fn builders(&self) -> Map<u32, WsBuilder> {
        self.workspaces@
    }

    /// The name-to-handle index built at the last `done`.
    pub closed spec fn names(&self) -> Map<Seq<char>, u32> {
        self.by_name@
    }

    pub fn new() -> (m: Self)
        ensures
            m.builders() == Map::<u32, WsBuilder>::empty(),
            m.names() == Map::<Seq<char>, u32>::empty(),
    {
        ExtWorkspaceModel { workspaces: HashMap::new(), by_name: StringHashMap::new() }
    }

    /// The handle last indexed under `name`, for activation requests.
    pub fn id_for_name(&self, name: &str) -> (r: Option<u32>)
        ensures
            r == (if self.names().contains_key(name@) { Some(self.names()[name@]) } else { None }),
    {
        match self.by_name.get(name) {
            Some(id) => Some(*id),
            None => None,
        }
    }

    /// Apply one protocol event. On `done` the index of names is rebuilt and
    /// the snapshot for the bar is returned.
    pub fn apply(&mut self, ev: ExtWorkspaceEvent) -> (snap: Option<WorkspaceState>)
        ensures
            match ev {
                ExtWorkspaceEvent::Workspace(id) => {
                    &&& final(self).builders() == old(self).builders().insert(
                        id,
                        WsBuilder { name: None, active: false, urgent: false },
                    )
                    &&& final(self).names() == old(self).names()
                    &&& snap is None
                },
                ExtWorkspaceEvent::Name(id, name) => {
                    &&& final(self).builders() == (if old(self).builders().contains_key(id) {
                        old(self).builders().insert(
                            id,
                            WsBuilder { name: Some(name), ..old(self).builders()[id] },
                        )
                    } else {
                        old(self).builders()
                    })
                    &&& final(self).names() == old(self).names()
                    &&& snap is None
                },
                ExtWorkspaceEvent::State(id, active, urgent) => {
                    &&& final(self).builders() == (if old(self).builders().contains_key(id) {
                        old(self).builders().insert(
                            id,
                            WsBuilder { active: active, urgent: urgent, ..old(self).builders()[id] },
                        )
                    } else {
                        old(self).builders()
                    })
                    &&& final(self).names() == old(self).names()
                    &&& snap is None
                },
                ExtWorkspaceEvent::Removed(id) => {
                    &&& final(self).builders() == old(self).builders().remove(id)
                    &&& final(self).names() == old(self).names()
                    &&& snap is None
                },
                ExtWorkspaceEvent::Done => {
                    &&& final(self).builders() == old(self).builders()
                    &&& snap is Some
                    &&& snapshot_of(old(self).builders(), snap.unwrap())
                    &&& names_index_of(old(self).builders(), final(self).names())
                },
                ExtWorkspaceEvent::Other => {
                    &&& final(self).builders() == old(self).builders()
                    &&& final(self).names() == old(self).names()
                    &&& snap is None
                },
            },
    {
        match ev {
            ExtWorkspaceEvent::Workspace(id) => {
                self.workspaces.insert(id, WsBuilder { name: None, active: false, urgent: false });
                None
            },
            ExtWorkspaceEvent::Name(id, name) => {
                match self.workspaces.remove(&id) {
                    Some(b) => {
                        let nb = WsBuilder { name: Some(name), active: b.active, urgent: b.urgent };
                        self.workspaces.insert(id, nb);
                        assert(self.workspaces@ =~= old(self).workspaces@.insert(
                            id,
                            WsBuilder { name: Some(name), ..old(self).workspaces@[id] },
                        ));
                    },
                    None => {
                        assert(self.workspaces@ =~= old(self).workspaces@);
                    },
                }
                None
            },
            ExtWorkspaceEvent::State(id, active, urgent) => {
                match self.workspaces.remove(&id) {
                    Some(b) => {
                        let nb = WsBuilder { name: b.name, active, urgent };
                        self.workspaces.insert(id, nb);
                        assert(self.workspaces@ =~= old(self).workspaces@.insert(
                            id,
                            WsBuilder { active: active, urgent: urgent, ..old(self).workspaces@[id] },
                        ));
                    },
                    None => {
                        assert(self.workspaces@ =~= old(self).workspaces@);
                    },
                }
                None
            },
            ExtWorkspaceEvent::Removed(id) => {
                self.workspaces.remove(&id);
                None
            },
            ExtWorkspaceEvent::Done => Some(self.flush()),
            ExtWorkspaceEvent::Other => None,
        }
    }

    fn flush(&mut self) -> (st: WorkspaceState)
        ensures
            final(self).builders() == old(self).builders(),
            snapshot_of(old(self).builders(), st),
            names_index_of(old(self).builders(), final(self).names()),
    {
        let mut list: Vec<Workspace> = Vec::new();
        let mut by_name: StringHashMap<u32> = StringHashMap::new();
        let ghost m = self.workspaces@;
        let ghost full = vstd::std_specs::hash::spec_hash_map_iter(&self.workspaces).remaining();
        let ghost mut seen: int = 0;
        let entries = self.workspaces.iter();
        assert(full.no_duplicates());
        for pair in it: entries
            invariant
                m == self.workspaces@,
                it.seq() == full,
                seen == it.index(),
                list@ == named_list(it.seq().take(it.index() as int).map_values(|p: (&u32, &WsBuilder)| *p.1)),
                forall|n: Seq<char>| #[trigger] by_name@.contains_key(n) ==> m.contains_key(by_name@[n])
                    && m[by_name@[n]].name is Some && m[by_name@[n]].name.unwrap()@ == n,
                forall|k: int| 0 <= k < it.index() && (#[trigger] it.seq()[k]).1.name is Some
                    ==> by_name@.contains_key(it.seq()[k].1.name.unwrap()@),
                forall|k: int| 0 <= k < it.seq().len() ==> m.contains_key(*(#[trigger] it.seq()[k]).0)
                    && m[*it.seq()[k].0] == *it.seq()[k].1,
        {
            let (id, b) = pair;
            let ghost before = it.seq().take(it.index() as int).map_values(|p: (&u32, &WsBuilder)| *p.1);
            let ghost after = it.seq().take(it.index() + 1).map_values(|p: (&u32, &WsBuilder)| *p.1);
            assert(after.drop_last() =~= before);
            assert(after.last() == *b);
            proof {
                seen = seen + 1;
            }
            match &b.name {
                Some(n) => {
                    by_name.insert(n.clone(), *id);
                    list.push(Workspace {
                        id: WorkspaceId(n.clone()),
                        name: n.clone(),
                        active: b.active,
                        urgent: b.urgent,
                        output: None,
                    });
                },
                None => {},
            }
        }
        self.by_name = by_name;
        let ghost unsorted = list@;
        let sorted = sort_stable(list);
        proof {
            assert(full.take(full.len() as int) =~= full);
            lemma_named_workspaces_weak(unsorted);
            lemma_sorted_stable_is_sorted(unsorted);
            lemma_flush_members(m, full, unsorted, sorted@);
            lemma_flush_count(m, full, unsorted, sorted@);
        }
        let active = find_first_active(&sorted);
        WorkspaceState { workspaces: sorted, active }
    }
}

/// `st` lists every named handle of `m` exactly as the bar shows it,
/// sorted by name, with the first active one as the focused workspace.
pub open spec fn snapshot_of(m: Map<u32, WsBuilder>, st: WorkspaceState) -> bool {
    let ws = st.workspaces@;
    &&& is_sorted(ws)
    &&& forall|i: int| #![trigger ws[i]] 0 <= i < ws.len() ==> exists|k: u32| #[trigger] m.contains_key(k)
        && m[k].name is Some && ws_from(m[k]) == ws[i]
    &&& forall|k: u32| #[trigger] m.contains_key(k) && m[k].name is Some ==> ws.contains(ws_from(m[k]))
    &&& ws.len() == named_keys(m).len()
    &&& id_view(st.active) == first_active(ws)
}

/// The handles of `m` that have a name.
pub open spec fn named_keys(m: Map<u32, WsBuilder>) -> Set<u32> {
    m.dom().filter(|k: u32| m[k].name is Some)
}

/// The named keys met in a sequence of map entries.
spec fn named_keys_of(s: Seq<(&u32, &WsBuilder)>) -> Set<u32>
    decreases s.len(),
{
    if s.len() == 0 {
        Set::empty()
    } else if s.last().1.name is Some {
        named_keys_of(s.drop_last()).insert(*s.last().0)
    } else {
        named_keys_of(s.drop_last())
    }
}

proof fn lemma_named_keys_of(s: Seq<(&u32, &WsBuilder)>)
    ensures
        named_keys_of(s).finite(),
        forall|k: u32| #[trigger] named_keys_of(s).contains(k) <==> exists|j: int|
            0 <= j < s.len() && *s[j].0 == k && (#[trigger] s[j]).1.name is Some,
        (forall|i: int, j: int| 0 <= i < j < s.len() ==> *s[i].0 != *s[j].0) ==>
            named_list(s.map_values(|p: (&u32, &WsBuilder)| *p.1)).len() == named_keys_of(s).len(),
    decreases s.len(),
{
    if s.len() > 0 {
        let p = s.drop_last();
        lemma_named_keys_of(p);
        let bs = s.map_values(|q: (&u32, &WsBuilder)| *q.1);
        assert(bs.drop_last() =~= p.map_values(|q: (&u32, &WsBuilder)| *q.1));
        assert(bs.last() == *s.last().1);
        assert forall|k: u32| #[trigger] named_keys_of(s).contains(k) <==> exists|j: int|
            0 <= j < s.len() && *s[j].0 == k && (#[trigger] s[j]).1.name is Some by {
            if named_keys_of(s).contains(k) {
                if s.last().1.name is Some && k == *s.last().0 {
                    assert(s[s.len() - 1] == s.last());
                } else {
                    let j = choose|j: int| 0 <= j < p.len() && *p[j].0 == k && (#[trigger] p[j]).1.name is Some;
                    assert(s[j] == p[j]);
                }
            }
            if exists|j: int| 0 <= j < s.len() && *s[j].0 == k && (#[trigger] s[j]).1.name is Some {
                let j = choose|j: int| 0 <= j < s.len() && *s[j].0 == k && (#[trigger] s[j]).1.name is Some;
                if j < p.len() {
                    assert(p[j] == s[j]);
                }
            }
        }
        if forall|i: int, j: int| 0 <= i < j < s.len() ==> *s[i].0 != *s[j].0 {
            assert forall|i: int, j: int| 0 <= i < j < p.len() implies *p[i].0 != *p[j].0 by {
                assert(p[i] == s[i] && p[j] == s[j]);
            }
            if s.last().1.name is Some {
                assert(!named_keys_of(p).contains(*s.last().0)) by {
                    if named_keys_of(p).contains(*s.last().0) {
                        let j = choose|j: int| 0 <= j < p.len() && *p[j].0 == *s.last().0 && (#[trigger] p[j]).1.name is Some;
                        assert(s[j] == p[j]);
                        assert(*s[j].0 != *s[s.len() - 1].0);
                    }
                }
            }
        }
    }
}

proof fn lemma_flush_count(m: Map<u32, WsBuilder>, seq: Seq<(&u32, &WsBuilder)>, unsorted: Seq<Workspace>, sorted: Seq<Workspace>)
    requires
        unsorted == named_list(seq.map_values(|p: (&u32, &WsBuilder)| *p.1)),
        sorted == sorted_stable(unsorted),
        seq.no_duplicates(),
        forall|k: int| 0 <= k < seq.len() ==> m.contains_key(*(#[trigger] seq[k]).0)
            && m[*seq[k].0] == *seq[k].1,
        forall|k: u32| #[trigger] m.contains_key(k) ==> seq.contains((&k, &m[k])),
    ensures
        sorted.len() == named_keys(m).len(),
{
    lemma_sorted_len(unsorted);
    lemma_named_keys_of(seq);
    assert forall|i: int, j: int| 0 <= i < j < seq.len() implies *seq[i].0 != *seq[j].0 by {
        if *seq[i].0 == *seq[j].0 {
            assert(*seq[i].1 == m[*seq[i].0]);
            assert(*seq[j].1 == m[*seq[j].0]);
            assert(seq[i] == seq[j]);
        }
    }
    assert forall|k: u32| named_keys_of(seq).contains(k) <==> #[trigger] named_keys(m).contains(k) by {
        if named_keys(m).contains(k) {
            assert(m.contains_key(k));
            assert(seq.contains((&k, &m[k])));
            let j = choose|j: int| 0 <= j < seq.len() && seq[j] == (&k, &m[k]);
            assert(*seq[j].0 == k && seq[j].1.name is Some);
        }
        if named_keys_of(seq).contains(k) {
            let j = choose|j: int| 0 <= j < seq.len() && *seq[j].0 == k && (#[trigger] seq[j]).1.name is Some;
            assert(m.contains_key(*seq[j].0));
        }
    }
    assert(named_keys_of(seq) =~= named_keys(m));
}

/// `names` indexes every name of `m` by one of the handles that carry it.
pub open spec fn names_index_of(m: Map<u32, WsBuilder>, names: Map<Seq<char>, u32>) -> bool {
    &&& forall|n: Seq<char>| #[trigger] names.contains_key(n) ==> m.contains_key(names[n])
        && m[names[n]].name is Some && m[names[n]].name.unwrap()@ == n
    &&& forall|k: u32| #[trigger] m.contains_key(k) && m[k].name is Some
        ==> names.contains_key(m[k].name.unwrap()@)
}

proof fn lemma_named_workspaces_weak(s: Seq<Workspace>)
    ensures
        strict_weak_on(s),
{
    assert forall|a: Workspace, b: Workspace| s.contains(a) && s.contains(b) && #[trigger] a.spec_before(&b)
        implies !b.spec_before(&a) by {
        lemma_seq_lt_asym(a.name@, b.name@);
    }
    assert forall|a: Workspace, b: Workspace, c: Workspace|
        s.contains(a) && s.contains(b) && s.contains(c) && !#[trigger] a.spec_before(&b)
            && !#[trigger] b.spec_before(&c) implies !a.spec_before(&c) by {
        lemma_seq_lt_neg_trans(a.name@, b.name@, c.name@);
    }
}

proof fn lemma_flush_members(
    m: Map<u32, WsBuilder>,
    seq: Seq<(&u32, &WsBuilder)>,
    unsorted: Seq<Workspace>,
    sorted: Seq<Workspace>,
)
    requires
        unsorted == named_list(seq.map_values(|p: (&u32, &WsBuilder)| *p.1)),
        sorted == sorted_stable(unsorted),
        forall|k: int| 0 <= k < seq.len() ==> m.contains_key(*(#[trigger] seq[k]).0)
            && m[*seq[k].0] == *seq[k].1,
        forall|k: u32| #[trigger] m.contains_key(k) ==> seq.contains((&k, &m[k])),
    ensures
        forall|i: int| #![trigger sorted[i]] 0 <= i < sorted.len() ==> exists|k: u32| #[trigger] m.contains_key(k)
            && m[k].name is Some && ws_from(m[k]) == sorted[i],
        forall|k: u32| #[trigger] m.contains_key(k) && m[k].name is Some ==> sorted.contains(ws_from(m[k])),
{
    broadcast use vstd::seq_lib::group_seq_properties;
    let bs = seq.map_values(|p: (&u32, &WsBuilder)| *p.1);
    lemma_sorted_multiset(unsorted);
    assert forall|i: int| #![trigger sorted[i]] 0 <= i < sorted.len() implies exists|k: u32| #[trigger] m.contains_key(k)
        && m[k].name is Some && ws_from(m[k]) == sorted[i] by {
        let w = sorted[i];
        assert(sorted.contains(w));
        assert(sorted.to_multiset().count(w) > 0);
        assert(unsorted.contains(w));
        lemma_named_list_member(bs, w);
        let j = choose|j: int| 0 <= j < bs.len() && (#[trigger] bs[j]).name is Some && ws_from(bs[j]) == w;
        let key = *seq[j].0;
        assert(m.contains_key(key));
    }
    assert forall|k: u32| #[trigger] m.contains_key(k) && m[k].name is Some implies sorted.contains(ws_from(m[k])) by {
        assert(seq.contains((&k, &m[k])));
        let j = choose|j: int| 0 <= j < seq.len() && seq[j] == (&k, &m[k]);
        assert(bs[j] == m[k]);
        lemma_named_list_member(bs, ws_from(m[k]));
        assert(unsorted.contains(ws_from(m[k])));
        assert(unsorted.to_multiset().count(ws_from(m[k])) > 0);
    }
}

/// The activation mailbox between the bar and the protocol session: the
/// bar posts the workspace it wants, the latest request wins, and the
/// session drains the mailbox after each dispatch.
pub struct ExtWorkspaceBackend {
    activate_request: Option<WorkspaceId>,
}

impl ExtWorkspaceBackend {
    /// The name of the workspace waiting to be activated, if any.
    pub closed spec fn pending(&self) -> Option<Seq<char>> {
        match self.activate_request {
            Some(id) => Some(id.0@),
            None => None,
        }
    }

    pub fn new() -> (b: Self)
        ensures
            b.pending() == None::<Seq<char>>,
    {
        ExtWorkspaceBackend { activate_request: None }
    }

    /// Ask for workspace `id` to be activated, replacing any earlier request.
    pub fn activate(&mut self, id: &WorkspaceId)
        ensures
            final(self).pending() == Some(id.0@),
    {
        self.activate_request = Some(id.clone());
    }

    /// Take the waiting request, leaving the mailbox empty.
    pub fn take_request(&mut self) -> (r: Option<WorkspaceId>)
        ensures
            final(self).pending() == None::<Seq<char>>,
            match r {
                Some(id) => old(self).pending() == Some(id.0@),
                None => old(self).pending() == None::<Seq<char>>,
            },
    {
        let r = self.activate_request.take();
        r
    }

    /// Drain the mailbox after a dispatch: the handle to activate, when a
    /// request was waiting and its name is indexed; the mailbox is empty
    /// afterwards either way.
    pub fn drain_activation(&mut self, model: &ExtWorkspaceModel) -> (r: Option<u32>)
        ensures
            final(self).pending() == None::<Seq<char>>,
            r == (match old(self).pending() {
                Some(name) => if model.names().contains_key(name) { Some(model.names()[name]) } else { None },
                None => None,
            }),
    {
        match self.take_request() {
            Some(req) => model.id_for_name(req.0.as_str()),
            None => None,
        }
    }
}

} // verus!
