//! DBusMenu layouts of tray icons: menu items from the raw layout tree.
use vstd::prelude::*;
use crate::text::{chars_of, str_eq, string_from_chars};

verus! {

/// One node of a `GetLayout` reply, with each property present only when
/// it had the expected type.
pub struct RawMenuNode {
    pub id: Option<i32>,
    pub label: Option<String>,
    pub item_type: Option<String>,
    pub enabled: Option<bool>,
    pub visible: Option<bool>,
    pub toggle_state: Option<i32>,
    /// The children that were well-formed nodes.
    pub children: Vec<RawMenuNode>,
}

#[derive(PartialEq, Eq, Structural, Clone, Copy, Debug)]
pub enum MenuItemType {
    Standard,
    Separator,
}

/// A tray menu entry.
pub struct MenuItem {
    pub id: i32,
    pub label: String,
    pub menu_type: MenuItemType,
    pub enabled: bool,
    pub visible: bool,
    pub toggle_state: Option<bool>,
    pub submenu: Vec<MenuItem>,
}

/// A label with its mnemonic underscores removed.
pub open spec fn strip_underscores(s: Seq<char>) -> Seq<char> {
    s.filter(|c: char| c != '_')
}

/// The entry's own fields as the node's properties give them: id 0, no
/// label, standard, enabled and visible unless stated, toggled when the
/// toggle state is 1.
pub open spec fn fields_match(raw: RawMenuNode, it: MenuItem) -> bool {
    &&& it.id == (match raw.id { Some(i) => i, None => 0i32 })
    &&& it.label@ == (match raw.label { Some(l) => strip_underscores(l@), None => Seq::empty() })
    &&& it.menu_type == (match raw.item_type {
        Some(t) => if t@ == "separator"@ { MenuItemType::Separator } else { MenuItemType::Standard },
        None => MenuItemType::Standard,
    })
    &&& it.enabled == (match raw.enabled { Some(e) => e, None => true })
    &&& it.visible == (match raw.visible { Some(v) => v, None => true })
    &&& it.toggle_state == (match raw.toggle_state { Some(t) => Some(t == 1), None => None })
}

/// `it` is the entry for `raw`, its submenu entry by entry.
pub open spec fn item_matches(raw: RawMenuNode, it: MenuItem) -> bool
    decreases raw,
{
    &&& fields_match(raw, it)
    &&& it.submenu@.len() == raw.children@.len()
    &&& forall|i: int| 0 <= i < raw.children@.len() ==> #[trigger] item_matches_at(raw, it, i)
}

pub open spec fn item_matches_at(raw: RawMenuNode, it: MenuItem, i: int) -> bool
    decreases raw, 0int,
{
    0 <= i < raw.children@.len() && {
        proof {
            assert(decreases_to!(raw => raw.children));
        }
        item_matches(raw.children@[i], it.submenu@[i])
    }
}

fn strip_underscores_exec(s: &str) -> (r: String)
    ensures
        r@ == strip_underscores(s@),
{
    let cs = chars_of(s);
    let mut out: Vec<char> = Vec::new();
    let mut i: usize = 0;
    while i < cs.len()
        invariant
            i <= cs@.len(),
            cs@ == s@,
            out@ == strip_underscores(cs@.take(i as int)),
        decreases cs@.len() - i,
    {
        proof {
            reveal(Seq::filter);
            assert(cs@.take(i + 1).drop_last() =~= cs@.take(i as int));
        }
        if cs[i] != '_' {
            out.push(cs[i]);
        }
        i = i + 1;
    }
    assert(cs@.take(i as int) =~= cs@);
    string_from_chars(out.as_slice())
}

/// Build a menu entry (and its submenu) from a layout node.
pub fn menu_item_from_raw(raw: &RawMenuNode) -> (it: MenuItem)
    ensures
        item_matches(*raw, it),
    decreases raw,
{
    let id = match raw.id { Some(i) => i, None => 0 };
    let label = match &raw.label {
        Some(l) => strip_underscores_exec(l.as_str()),
        None => string_from_chars(&[]),
    };
    let menu_type = match &raw.item_type {
        Some(t) => if str_eq(t.as_str(), "separator") { MenuItemType::Separator } else { MenuItemType::Standard },
        None => MenuItemType::Standard,
    };
    let enabled = match raw.enabled { Some(e) => e, None => true };
    let visible = match raw.visible { Some(v) => v, None => true };
    let toggle_state = match raw.toggle_state { Some(t) => Some(t == 1), None => None };
    let mut submenu: Vec<MenuItem> = Vec::new();
    let mut i: usize = 0;
    while i < raw.children.len()
        invariant
            i <= raw.children@.len(),
            submenu@.len() == i,
            forall|k: int| 0 <= k < i ==> item_matches(raw.children@[k], #[trigger] submenu@[k]),
        decreases raw.children@.len() - i,
    {
        proof {
            assert(decreases_to!(*raw => raw.children));
        }
        let child = menu_item_from_raw(&raw.children[i]);
        submenu.push(child);
        i = i + 1;
    }
    let it = MenuItem { id, label, menu_type, enabled, visible, toggle_state, submenu };
    assert(it.label@ == (match raw.label { Some(l) => strip_underscores(l@), None => Seq::empty() }));
    assert(fields_match(*raw, it));
    proof {
        assert forall|k: int| 0 <= k < raw.children@.len() implies #[trigger] item_matches_at(*raw, it, k) by {
            assert(it.submenu@[k] == submenu@[k]);
        }
    }
    it
}

/// The entries of a layout's root: one per well-formed child.
pub fn parse_menu_layout(children: &Vec<RawMenuNode>) -> (items: Vec<MenuItem>)
    ensures
        items@.len() == children@.len(),
        forall|k: int| 0 <= k < children@.len() ==> item_matches(children@[k], #[trigger] items@[k]),
{
    let mut items: Vec<MenuItem> = Vec::new();
    let mut i: usize = 0;
    while i < children.len()
        invariant
            i <= children@.len(),
            items@.len() == i,
            forall|k: int| 0 <= k < i ==> item_matches(children@[k], #[trigger] items@[k]),
        decreases children@.len() - i,
    {
        items.push(menu_item_from_raw(&children[i]));
        i = i + 1;
    }
    items
}

/// The number of rows the popup reserves: the visible entries, at least one.
pub fn popup_rows(items: &Vec<MenuItem>) -> (n: usize)
    ensures
        n == if items@.filter(|m: MenuItem| m.visible).len() == 0 { 1 } else {
            items@.filter(|m: MenuItem| m.visible).len()
        },
{
    let mut count: usize = 0;
    let mut i: usize = 0;
    while i < items.len()
        invariant
            i <= items@.len(),
            count == items@.take(i as int).filter(|m: MenuItem| m.visible).len(),
        decreases items@.len() - i,
    {
        proof {
            reveal(Seq::filter);
            assert(items@.take(i + 1).drop_last() =~= items@.take(i as int));
            items@.take(i as int).lemma_filter_len(|m: MenuItem| m.visible);
        }
        if items[i].visible {
            count = count + 1;
        }
        i = i + 1;
    }
    assert(items@.take(i as int) =~= items@);
    if count == 0 { 1 } else { count }
}

/// Removing mnemonic underscores works character by character: a label's
/// text splits into parts whose stripped forms join up again, a lone `_`
/// vanishes, any other character stays as it is, and no `_` is left.
pub proof fn law_strip_underscores(s: Seq<char>, t: Seq<char>, c: char)
    ensures
        strip_underscores(s + t) == strip_underscores(s) + strip_underscores(t),
        strip_underscores(seq![c]) == (if c == '_' { Seq::<char>::empty() } else { seq![c] }),
        forall|i: int| 0 <= i < strip_underscores(s).len() ==> #[trigger] strip_underscores(s)[i] != '_',
{
    let f = |x: char| x != '_';
    Seq::filter_distributes_over_add(s, t, f);
    reveal_with_fuel(Seq::filter, 2);
    assert(seq![c].drop_last() =~= Seq::<char>::empty());
    s.filter_lemma(f);
}

} // verus!
