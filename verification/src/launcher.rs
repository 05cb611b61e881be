//! Application launcher list state: filtering by query and moving the
//! selection.
use vstd::prelude::*;
use crate::text::{
    chars_of, contains, dec_string, has_substring, occurs_at, is_whitespace, is_ws, push_all, push_decimal,
    string_from_chars,
};
use crate::icon_theme::str_views;

verus! {

/// What `str::to_lowercase` returns: the string's Unicode lowercase form
/// (not a per-character map: a capital sigma lowers by its context).
pub uninterp spec fn lowercase(s: Seq<char>) -> Seq<char>;

/// Lowercase a query.
/// Trusted: calls `str::to_lowercase`; the result is named `lowercase`.
#[verifier::external_body]
fn to_lowercase(s: &str) -> (r: String)
    ensures
        r@ == lowercase(s@),
{
    s.to_lowercase()
}

/// The entries whose search key contains `q` (all of them for an empty
/// `q`), in entry order.
pub open spec fn matching(keys: Seq<String>, q: Seq<char>) -> Seq<usize>
    decreases keys.len(),
{
    if keys.len() == 0 {
        Seq::empty()
    } else if q.len() == 0 || has_substring(keys.last()@, q) {
        matching(keys.drop_last(), q).push((keys.len() - 1) as usize)
    } else {
        matching(keys.drop_last(), q)
    }
}

/// Filtering keeps exactly the entries whose key holds the query as a run
/// of consecutive characters somewhere (every entry for an empty query),
/// in entry order, each once.
pub proof fn law_filter_substring(keys: Seq<String>, q: Seq<char>)
    requires
        keys.len() <= usize::MAX,
    ensures
        forall|i: int| #![trigger keys[i]] 0 <= i < keys.len() ==> (matching(keys, q).contains(i as usize) <==> (q.len() == 0
            || exists|p: int| 0 <= p && p + q.len() <= keys[i]@.len()
                && #[trigger] keys[i]@.subrange(p, p + q.len()) == q)),
        forall|a: int| 0 <= a < matching(keys, q).len() ==> #[trigger] matching(keys, q)[a] < keys.len(),
        forall|a: int, b: int| 0 <= a < b < matching(keys, q).len() ==>
            #[trigger] matching(keys, q)[a] < #[trigger] matching(keys, q)[b],
    decreases keys.len(),
{
    if keys.len() > 0 {
        let pre = keys.drop_last();
        law_filter_substring(pre, q);
        let m = matching(keys, q);
        let mp = matching(pre, q);
        let n = (keys.len() - 1) as usize;
        assert forall|i: int| #![trigger keys[i]] 0 <= i < keys.len() implies (m.contains(i as usize) <==> (q.len() == 0
            || exists|p: int| 0 <= p && p + q.len() <= keys[i]@.len()
                && #[trigger] keys[i]@.subrange(p, p + q.len()) == q)) by {
            if i < keys.len() - 1 {
                assert(keys[i] == pre[i]);
                if m.contains(i as usize) && !mp.contains(i as usize) {
                    let k = choose|k: int| 0 <= k < m.len() && m[k] == i as usize;
                    assert(k == mp.len());
                }
                if mp.contains(i as usize) {
                    let k = choose|k: int| 0 <= k < mp.len() && mp[k] == i as usize;
                    assert(m[k] == mp[k]);
                }
            } else {
                if q.len() == 0 || has_substring(keys.last()@, q) {
                    assert(m[mp.len() as int] == n);
                } else {
                    if m.contains(i as usize) {
                        let k = choose|k: int| 0 <= k < m.len() && m[k] == i as usize;
                        assert(mp[k] < pre.len());
                    }
                }
                if exists|p: int| 0 <= p && p + q.len() <= keys[i]@.len()
                    && #[trigger] keys[i]@.subrange(p, p + q.len()) == q {
                    let p = choose|p: int| 0 <= p && p + q.len() <= keys[i]@.len()
                        && #[trigger] keys[i]@.subrange(p, p + q.len()) == q;
                    assert(occurs_at(keys.last()@, q, p));
                }
                if has_substring(keys.last()@, q) {
                    let p = choose|p: int| #[trigger] occurs_at(keys.last()@, q, p);
                    assert(keys[i]@.subrange(p, p + q.len()) == q);
                }
            }
        }
    }
}

/// The launcher's list: the filtered entry indices and the selected row.
pub struct LauncherState {
    filtered: Vec<usize>,
    selected: usize,
}

impl LauncherState {
    pub closed spec fn rows(&self) -> Seq<usize> {
        self.filtered@
    }

    pub closed spec fn spec_selected(&self) -> usize {
        self.selected
    }

    /// The selection is a row of the list (row 0 of an empty list).
    pub open spec fn wf(&self) -> bool {
        if self.rows().len() == 0 { self.spec_selected() == 0 } else { self.spec_selected() < self.rows().len() }
    }

    /// Every state the launcher can be in has its selection on a row.
    #[verifier::type_invariant]
    spec fn selection_on_a_row(&self) -> bool {
        self.wf()
    }

    /// All `n` entries, first one selected.
    pub fn new(n: usize) -> (s: Self)
        ensures
            s.wf(),
            s.rows() == Seq::new(n as nat, |i: int| i as usize),
            s.spec_selected() == 0,
    {
        let mut filtered: Vec<usize> = Vec::new();
        let mut i: usize = 0;
        while i < n
            invariant
                i <= n,
                filtered@ == Seq::new(i as nat, |k: int| k as usize),
            decreases n - i,
        {
            filtered.push(i);
            i = i + 1;
            assert(filtered@ =~= Seq::new(i as nat, |k: int| k as usize));
        }
        LauncherState { filtered, selected: 0 }
    }

    pub fn selected(&self) -> (s: usize)
        ensures
            s == self.spec_selected(),
    {
        self.selected
    }

    pub fn filtered(&self) -> (f: &[usize])
        ensures
            f@ == self.rows(),
    {
        self.filtered.as_slice()
    }

    /// Refilter with an already lowercased query; the first row is selected.
    pub fn filter_lowered(&mut self, keys: &Vec<String>, q: &str)
        ensures
            final(self).wf(),
            final(self).rows() == matching(keys@, q@),
            final(self).spec_selected() == 0,
    {
        let qc = chars_of(q);
        let mut out: Vec<usize> = Vec::new();
        let mut i: usize = 0;
        while i < keys.len()
            invariant
                i <= keys@.len(),
                qc@ == q@,
                out@ == matching(keys@.take(i as int), q@),
            decreases keys@.len() - i,
        {
            proof {
                assert(keys@.take(i + 1).drop_last() =~= keys@.take(i as int));
            }
            let k = chars_of(keys[i].as_str());
            if qc.len() == 0 || contains(k.as_slice(), qc.as_slice()) {
                out.push(i);
            }
            i = i + 1;
        }
        assert(keys@.take(i as int) =~= keys@);
        *self = LauncherState { filtered: out, selected: 0 };
    }

    /// Refilter for a typed query: entries whose search key contains the
    /// lowercased query.
    pub fn update_filter(&mut self, keys: &Vec<String>, query: &str)
        ensures
            final(self).wf(),
            final(self).rows() == matching(keys@, lowercase(query@)),
            final(self).spec_selected() == 0,
    {
        let q = to_lowercase(query);
        self.filter_lowered(keys, q.as_str());
    }

    /// Select the previous row (staying on the first).
    pub fn move_up(&mut self)
        ensures
            final(self).wf(),
            final(self).rows() == old(self).rows(),
            final(self).spec_selected() == if old(self).spec_selected() == 0 { 0 } else { (old(self).spec_selected() - 1) as usize },
    {
        proof {
            use_type_invariant(&*self);
        }
        if self.selected > 0 {
            self.selected = self.selected - 1;
        }
    }

    /// Select the next row (staying on the last).
    pub fn move_down(&mut self)
        ensures
            final(self).wf(),
            final(self).rows() == old(self).rows(),
            final(self).spec_selected() == if old(self).rows().len() == 0 {
                old(self).spec_selected()
            } else if old(self).spec_selected() + 1 < old(self).rows().len() {
                (old(self).spec_selected() + 1) as usize
            } else {
                (old(self).rows().len() - 1) as usize
            },
    {
        proof {
            use_type_invariant(&*self);
        }
        if self.filtered.len() > 0 {
            let next = self.selected + 1;
            self.selected = if next < self.filtered.len() { next } else { self.filtered.len() - 1 };
        }
    }

    /// The entry to launch on confirm: the selected row's entry.
    pub fn confirm(&self) -> (e: Option<usize>)
        ensures
            e == if self.rows().len() == 0 { None } else { Some(self.rows()[self.spec_selected() as int]) },
    {
        proof {
            use_type_invariant(&*self);
        }
        if self.filtered.len() == 0 {
            None
        } else {
            Some(self.filtered[self.selected])
        }
    }

    /// The `selected/total` counter (`0/0` for an empty list).
    pub fn position_label(&self) -> (r: String)
        ensures
            r@ == if self.rows().len() == 0 {
                "0/0"@
            } else {
                dec_string(self.spec_selected() as nat + 1) + "/"@ + dec_string(self.rows().len())
            },
    {
        proof {
            use_type_invariant(&*self);
        }
        if self.filtered.len() == 0 {
            let z = chars_of("0/0");
            return string_from_chars(z.as_slice());
        }
        let mut out: Vec<char> = Vec::new();
        push_decimal(&mut out, (self.selected + 1) as u64);
        let slash = chars_of("/");
        push_all(&mut out, slash.as_slice());
        push_decimal(&mut out, self.filtered.len() as u64);
        proof {
            assert(out@ =~= dec_string(self.spec_selected() as nat + 1) + "/"@ + dec_string(self.rows().len()));
        }
        string_from_chars(out.as_slice())
    }
}

/// `str::split_whitespace`: the maximal runs of non-whitespace characters.
pub open spec fn words(s: Seq<char>) -> Seq<Seq<char>>
    decreases s.len(),
{
    if s.len() == 0 {
        Seq::empty()
    } else {
        let w = words(s.drop_last());
        let c = s.last();
        if is_ws(c) {
            w
        } else if s.len() >= 2 && !is_ws(s[s.len() - 2]) {
            w.update(w.len() - 1, w.last().push(c))
        } else {
            w.push(seq![c])
        }
    }
}

/// The program and its arguments for an `Exec=` line whose field codes
/// were stripped: its whitespace-separated words.
pub fn exec_argv(exec: &str) -> (r: Vec<String>)
    ensures
        str_views(r@) == words(exec@),
{
    let cs = chars_of(exec);
    let mut done: Vec<String> = Vec::new();
    let mut cur: Vec<char> = Vec::new();
    let mut i: usize = 0;
    while i < cs.len()
        invariant
            i <= cs@.len(),
            cs@ == exec@,
            if i > 0 && !is_ws(cs@[i - 1]) {
                cur@.len() > 0 && str_views(done@).push(cur@) == words(cs@.take(i as int))
            } else {
                cur@.len() == 0 && str_views(done@) == words(cs@.take(i as int))
            },
        decreases cs@.len() - i,
    {
        let c = cs[i];
        let ghost t = cs@.take(i + 1);
        proof {
            assert(t.drop_last() =~= cs@.take(i as int));
            assert(t.last() == c);
            if i > 0 {
                assert(t[t.len() - 2] == cs@[i - 1]);
            }
        }
        if is_whitespace(c) {
            if cur.len() > 0 {
                let ghost prev = done@;
                let w = string_from_chars(cur.as_slice());
                done.push(w);
                assert(str_views(done@) =~= str_views(prev).push(cur@));
                cur = Vec::new();
            }
        } else {
            let ghost old_cur = cur@;
            cur.push(c);
            proof {
                if i > 0 && !is_ws(cs@[i - 1]) {
                    let w = words(cs@.take(i as int));
                    assert(str_views(done@).push(cur@) =~= w.update(w.len() - 1, w.last().push(c)));
                } else {
                    assert(old_cur.len() == 0);
                    assert(cur@ =~= seq![c]);
                }
            }
        }
        i = i + 1;
    }
    assert(cs@.take(i as int) =~= cs@);
    if cur.len() > 0 {
        let ghost prev = done@;
        done.push(string_from_chars(cur.as_slice()));
        assert(str_views(done@) =~= str_views(prev).push(cur@));
    }
    done
}

} // verus!
