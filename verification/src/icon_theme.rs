//! Freedesktop icon-theme lookup: which directories are scanned and with
//! what priority, which files count as icons, and the name-to-path cache in
//! which the lowest priority wins.
use vstd::prelude::*;
use vstd::hash_map::StringHashMap;
use crate::text::{
    chars_eq, chars_of, has_prefix, lines, lines_of, push_all, split_chars, split_on, starts_with, str_eq,
    string_from_chars, trim, trim_chars, views,
};

verus! {

/// An icon file found while scanning: its stem, its path, and the priority
/// of the directory it was found in (lower is better).
pub struct IconFile {
    pub name: String,
    pub path: String,
    pub priority: usize,
}

/// The entry the cache keeps for `name` after the files of `found`, taken
/// in order: a file replaces the kept one only with a strictly lower
/// priority.
pub open spec fn best(found: Seq<IconFile>, name: Seq<char>) -> Option<(Seq<char>, usize)>
    decreases found.len(),
{
    if found.len() == 0 {
        None
    } else {
        let prev = best(found.drop_last(), name);
        let e = found.last();
        if e.name@ == name && (match prev {
            Some(p) => e.priority < p.1,
            None => true,
        }) {
            Some((e.path@, e.priority))
        } else {
            prev
        }
    }
}

/// The name-to-path map built from `found`.
pub open spec fn cache_of(found: Seq<IconFile>) -> Map<Seq<char>, Seq<char>> {
    Map::new(|n: Seq<char>| best(found, n) is Some, |n: Seq<char>| best(found, n).unwrap().0)
}

/// The cache keeps, for each name, a file of that name with the lowest
/// priority, the earliest such file in scan order; a name with no file has
/// no entry.
pub proof fn law_lowest_priority_wins(found: Seq<IconFile>, name: Seq<char>)
    ensures
        (best(found, name) is None) == (forall|j: int| 0 <= j < found.len() ==> found[j].name@ != name),
        best(found, name) is Some ==> exists|i: int| {
            &&& 0 <= i < found.len()
            &&& #[trigger] found[i].name@ == name
            &&& found[i].path@ == best(found, name).unwrap().0
            &&& found[i].priority == best(found, name).unwrap().1
            &&& forall|j: int| 0 <= j < found.len() && found[j].name@ == name
                ==> found[i].priority <= found[j].priority
            &&& forall|j: int| 0 <= j < i && found[j].name@ == name
                ==> found[i].priority < found[j].priority
        },
    decreases found.len(),
{
    if found.len() > 0 {
        let pre = found.drop_last();
        law_lowest_priority_wins(pre, name);
        let e = found.last();
        let k = found.len() - 1;
        assert(found[k] == e);
        assert forall|j: int| 0 <= j < pre.len() implies found[j] == pre[j] by {}
        match best(pre, name) {
            None => {
                if e.name@ == name {
                    assert(found[k].name@ == name);
                }
            }
            Some(p) => {
                let i = choose|i: int| {
                    &&& 0 <= i < pre.len()
                    &&& #[trigger] pre[i].name@ == name
                    &&& pre[i].path@ == p.0
                    &&& pre[i].priority == p.1
                    &&& forall|j: int| 0 <= j < pre.len() && pre[j].name@ == name
                        ==> pre[i].priority <= pre[j].priority
                    &&& forall|j: int| 0 <= j < i && pre[j].name@ == name
                        ==> pre[i].priority < pre[j].priority
                };
                assert(found[i] == pre[i]);
                if e.name@ == name && e.priority < p.1 {
                    assert(found[k].name@ == name);
                } else {
                    assert(found[i].name@ == name);
                }
            }
        }
    }
}

/// A cached name-to-path mapping for icon-theme icons.
pub struct IconCache {
    map: StringHashMap<String>,
}

impl IconCache {
    /// The cached icons: stem name to path.
    pub closed spec fn icons(&self) -> Map<Seq<char>, Seq<char>> {
        Map::new(|n: Seq<char>| self.map@.contains_key(n), |n: Seq<char>| self.map@[n]@)
    }

    /// Build the cache from the files found, in scan order: for each name
    /// the file of lowest priority, the earliest one among equals.
    pub fn from_found(found: &Vec<IconFile>) -> (c: Self)
        ensures
            c.icons() == cache_of(found@),
    {
        let mut paths: StringHashMap<String> = StringHashMap::new();
        let mut prios: StringHashMap<usize> = StringHashMap::new();
        let mut i: usize = 0;
        while i < found.len()
            invariant
                i <= found@.len(),
                forall|n: Seq<char>| #[trigger] paths@.contains_key(n) == (best(found@.take(i as int), n) is Some),
                forall|n: Seq<char>| #[trigger] prios@.contains_key(n) == (best(found@.take(i as int), n) is Some),
                forall|n: Seq<char>| #[trigger] best(found@.take(i as int), n) is Some ==> {
                    &&& paths@[n]@ == best(found@.take(i as int), n).unwrap().0
                    &&& prios@[n] == best(found@.take(i as int), n).unwrap().1
                },
            decreases found@.len() - i,
        {
            let e = &found[i];
            let replace = match prios.get(e.name.as_str()) {
                Some(p) => e.priority < *p,
                None => true,
            };
            let ghost pre = found@.take(i as int);
            let ghost p0 = paths@;
            let ghost q0 = prios@;
            proof {
                assert(found@.take(i + 1).drop_last() =~= pre);
                assert(found@.take(i + 1).last() == found@[i as int]);
            }
            if replace {
                paths.insert(e.name.clone(), e.path.clone());
                prios.insert(e.name.clone(), e.priority);
            }
            i = i + 1;
            proof {
                let cur = found@.take(i as int);
                assert forall|n: Seq<char>| #![trigger best(cur, n)]
                    (paths@.contains_key(n) == (best(cur, n) is Some))
                    && (prios@.contains_key(n) == (best(cur, n) is Some))
                    && (best(cur, n) is Some ==> paths@[n]@ == best(cur, n).unwrap().0
                        && prios@[n] == best(cur, n).unwrap().1) by {
                    assert(p0.contains_key(n) == (best(pre, n) is Some));
                    assert(q0.contains_key(n) == (best(pre, n) is Some));
                    assert(best(pre, n) is Some ==> p0[n]@ == best(pre, n).unwrap().0 && q0[n] == best(pre, n).unwrap().1);
                }
            }
        }
        assert(found@.take(i as int) =~= found@);
        let c = IconCache { map: paths };
        assert(c.icons() =~= cache_of(found@));
        c
    }

    /// The path cached for an icon name.
    pub fn lookup(&self, name: &str) -> (r: Option<&str>)
        ensures
            match r {
                Some(p) => self.icons().contains_key(name@) && p@ == self.icons()[name@],
                None => !self.icons().contains_key(name@),
            },
    {
        match self.map.get(name) {
            Some(p) => Some(p.as_str()),
            None => None,
        }
    }

    /// The number of icons cached.
    pub fn len(&self) -> (r: usize)
        ensures
            r == self.icons().len(),
    {
        assert(self.icons().dom() =~= self.map@.dom());
        self.map.len()
    }

    pub fn is_empty(&self) -> (r: bool)
        ensures
            r == self.icons().is_empty(),
    {
        assert(self.icons().dom() =~= self.map@.dom());
        self.map.is_empty()
    }
}

/// ASCII lower-casing of one character.
pub open spec fn ascii_lower(c: char) -> char {
    if 'A' <= c && c <= 'Z' { ((c as u32) + 32) as char } else { c }
}

/// Equality up to ASCII case, as `str::eq_ignore_ascii_case` compares.
pub open spec fn eq_ignore_ascii_case(a: Seq<char>, b: Seq<char>) -> bool {
    a.len() == b.len() && forall|i: int| 0 <= i < a.len() ==> ascii_lower(a[i]) == ascii_lower(b[i])
}

/// The icon file extensions: `svg`, `svgz`, `png`, in any ASCII case.
pub open spec fn is_icon_ext(ext: Seq<char>) -> bool {
    eq_ignore_ascii_case(ext, "svg"@) || eq_ignore_ascii_case(ext, "svgz"@)
        || eq_ignore_ascii_case(ext, "png"@)
}

/// The index of the last `.` in `s`, or -1.
pub open spec fn last_dot(s: Seq<char>) -> int
    decreases s.len(),
{
    if s.len() == 0 {
        -1
    } else if s.last() == '.' {
        s.len() - 1
    } else {
        last_dot(s.drop_last())
    }
}

/// The stem under which a file is cached, when its name has an icon
/// extension. As for `Path`, the extension follows the last `.`, and a name
/// whose only `.` leads it has none.
pub open spec fn spec_icon_stem(file_name: Seq<char>) -> Option<Seq<char>> {
    let k = last_dot(file_name);
    if k > 0 && is_icon_ext(file_name.skip(k + 1)) { Some(file_name.take(k)) } else { None }
}

fn lower_ascii(c: char) -> (r: char)
    ensures
        r == ascii_lower(c),
{
    if 'A' <= c && c <= 'Z' {
        let u = (c as u32) + 32;
        if u == 'a' as u32 { 'a' } else if u == 'b' as u32 { 'b' } else if u == 'c' as u32 { 'c' }
        else if u == 'd' as u32 { 'd' } else if u == 'e' as u32 { 'e' } else if u == 'f' as u32 { 'f' }
        else if u == 'g' as u32 { 'g' } else if u == 'h' as u32 { 'h' } else if u == 'i' as u32 { 'i' }
        else if u == 'j' as u32 { 'j' } else if u == 'k' as u32 { 'k' } else if u == 'l' as u32 { 'l' }
        else if u == 'm' as u32 { 'm' } else if u == 'n' as u32 { 'n' } else if u == 'o' as u32 { 'o' }
        else if u == 'p' as u32 { 'p' } else if u == 'q' as u32 { 'q' } else if u == 'r' as u32 { 'r' }
        else if u == 's' as u32 { 's' } else if u == 't' as u32 { 't' } else if u == 'u' as u32 { 'u' }
        else if u == 'v' as u32 { 'v' } else if u == 'w' as u32 { 'w' } else if u == 'x' as u32 { 'x' }
        else if u == 'y' as u32 { 'y' } else { 'z' }
    } else {
        c
    }
}

fn eq_ignore_case_from(a: &[char], start: usize, b: &[char]) -> (r: bool)
    requires
        start <= a@.len(),
    ensures
        r == eq_ignore_ascii_case(a@.skip(start as int), b@),
{
    let alen = a.len();
    if alen - start != b.len() {
        return false;
    }
    let mut i: usize = 0;
    while i < b.len()
        invariant
            alen == a@.len(),
            a@.len() == start + b@.len(),
            start <= a@.len(),
            i <= b@.len(),
            forall|j: int| 0 <= j < i ==> ascii_lower(a@.skip(start as int)[j]) == ascii_lower(b@[j]),
        decreases b@.len() - i,
    {
        let idx: usize = start + i;
        if lower_ascii(a[idx]) != lower_ascii(b[i]) {
            return false;
        }
        i = i + 1;
    }
    true
}

/// The stem of a scanned file name when it is an icon file.
pub fn icon_stem(file_name: &str) -> (r: Option<String>)
    ensures
        match r {
            Some(st) => spec_icon_stem(file_name@) == Some(st@),
            None => spec_icon_stem(file_name@) is None,
        },
{
    let cs = chars_of(file_name);
    let mut k: usize = cs.len();
    assert(cs@.take(k as int) =~= cs@);
    while k > 0 && cs[k - 1] != '.'
        invariant
            k <= cs@.len(),
            last_dot(cs@) == last_dot(cs@.take(k as int)),
        decreases k,
    {
        assert(cs@.take(k as int).drop_last() =~= cs@.take(k - 1));
        k = k - 1;
    }
    if k == 0 {
        assert(cs@.take(0) =~= Seq::<char>::empty());
        return None;
    }
    assert(cs@.take(k as int).drop_last() =~= cs@.take(k - 1));
    let dot = k - 1;
    if dot == 0 {
        return None;
    }
    let svg = chars_of("svg");
    let svgz = chars_of("svgz");
    let png = chars_of("png");
    let ok = eq_ignore_case_from(cs.as_slice(), k, svg.as_slice())
        || eq_ignore_case_from(cs.as_slice(), k, svgz.as_slice())
        || eq_ignore_case_from(cs.as_slice(), k, png.as_slice());
    if !ok {
        return None;
    }
    let mut stem: Vec<char> = Vec::new();
    let mut i: usize = 0;
    while i < dot
        invariant
            dot < cs@.len(),
            i <= dot,
            stem@ == cs@.take(i as int),
        decreases dot - i,
    {
        stem.push(cs[i]);
        i = i + 1;
        assert(stem@ =~= cs@.take(i as int));
    }
    Some(string_from_chars(stem.as_slice()))
}

/// Standard size subdirectories, best first.
pub open spec fn size_dir(j: int) -> Seq<char> {
    if j == 0 { "scalable"@ } else if j == 1 { "48x48"@ } else if j == 2 { "32x32"@ }
    else if j == 3 { "64x64"@ } else if j == 4 { "24x24"@ } else if j == 5 { "96x96"@ }
    else if j == 6 { "128x128"@ } else if j == 7 { "256x256"@ } else if j == 8 { "22x22"@ }
    else if j == 9 { "16x16"@ } else { "512x512"@ }
}

fn size_dir_exec(j: usize) -> (r: &'static str)
    requires
        j < 11,
    ensures
        r@ == size_dir(j as int),
{
    if j == 0 { "scalable" } else if j == 1 { "48x48" } else if j == 2 { "32x32" }
    else if j == 3 { "64x64" } else if j == 4 { "24x24" } else if j == 5 { "96x96" }
    else if j == 6 { "128x128" } else if j == 7 { "256x256" } else if j == 8 { "22x22" }
    else if j == 9 { "16x16" } else { "512x512" }
}

/// Breeze-style size subdirectories, best first.
pub open spec fn breeze_size(j: int) -> Seq<char> {
    if j == 0 { "48"@ } else if j == 1 { "32"@ } else if j == 2 { "64"@ } else if j == 3 { "22"@ } else { "16"@ }
}

fn breeze_size_exec(j: usize) -> (r: &'static str)
    requires
        j < 5,
    ensures
        r@ == breeze_size(j as int),
{
    if j == 0 { "48" } else if j == 1 { "32" } else if j == 2 { "64" } else if j == 3 { "22" } else { "16" }
}

/// A directory to scan for icons, with its priority (lower is better).
pub struct ScanDir {
    pub priority: usize,
    pub path: String,
}

pub open spec fn scan_view(ds: Seq<ScanDir>) -> Seq<(int, Seq<char>)> {
    ds.map_values(|d: ScanDir| (d.priority as int, d.path@))
}

/// The sixteen candidate directories of theme `t` and category `c`: the
/// standard `{theme}/{size}/{category}` ones, then the breeze-style
/// `{theme}/{category}/{size}` ones.
pub open spec fn block(theme: Seq<char>, cat: Seq<char>, t: int, c: int) -> Seq<(int, Seq<char>)> {
    Seq::new(16, |j: int|
        if j < 11 {
            (t * 10000 + c * 100 + j, "/usr/share/icons/"@ + theme + "/"@ + size_dir(j) + "/"@ + cat)
        } else {
            (t * 10000 + c * 100 + 50 + (j - 11), "/usr/share/icons/"@ + theme + "/"@ + cat + "/"@ + breeze_size(j - 11))
        })
}

pub open spec fn cat_plan(themes: Seq<Seq<char>>, cats: Seq<Seq<char>>, t: int, n: int) -> Seq<(int, Seq<char>)>
    decreases n,
{
    if n <= 0 { Seq::empty() } else { cat_plan(themes, cats, t, n - 1) + block(themes[t], cats[n - 1], t, n - 1) }
}

pub open spec fn theme_plan(themes: Seq<Seq<char>>, cats: Seq<Seq<char>>, m: int) -> Seq<(int, Seq<char>)>
    decreases m,
{
    if m <= 0 { Seq::empty() } else { theme_plan(themes, cats, m - 1) + cat_plan(themes, cats, m - 1, cats.len() as int) }
}

/// Every candidate directory in scan order, ending with the pixmaps
/// fallback at the lowest priority.
pub open spec fn scan_plan(themes: Seq<Seq<char>>, cats: Seq<Seq<char>>) -> Seq<(int, Seq<char>)> {
    theme_plan(themes, cats, themes.len() as int).push((usize::MAX as int, "/usr/share/pixmaps"@))
}

/// Priorities that strictly increase along the sequence.
pub open spec fn increasing(s: Seq<(int, Seq<char>)>) -> bool {
    forall|i: int, j: int| 0 <= i < j < s.len() ==> s[i].0 < s[j].0
}

proof fn lemma_increasing_concat(a: Seq<(int, Seq<char>)>, b: Seq<(int, Seq<char>)>, lo: int)
    requires
        increasing(a),
        increasing(b),
        forall|i: int| 0 <= i < a.len() ==> a[i].0 < lo,
        forall|i: int| 0 <= i < b.len() ==> lo <= b[i].0,
    ensures
        increasing(a + b),
{
    assert forall|i: int, j: int| 0 <= i < j < (a + b).len() implies (a + b)[i].0 < (a + b)[j].0 by {
        if j < a.len() {
        } else if i < a.len() {
            assert((a + b)[i] == a[i]);
            assert((a + b)[j] == b[j - a.len()]);
        } else {
            assert((a + b)[i] == b[i - a.len()]);
            assert((a + b)[j] == b[j - a.len()]);
        }
    }
}

proof fn lemma_cat_plan_order(themes: Seq<Seq<char>>, cats: Seq<Seq<char>>, t: int, n: int)
    requires
        0 <= t,
        0 <= n,
    ensures
        increasing(cat_plan(themes, cats, t, n)),
        forall|i: int| 0 <= i < cat_plan(themes, cats, t, n).len() ==> {
            let p = #[trigger] cat_plan(themes, cats, t, n)[i].0;
            t * 10000 <= p <= t * 10000 + n * 100 - 46
        },
    decreases n,
{
    if n > 0 {
        lemma_cat_plan_order(themes, cats, t, n - 1);
        let a = cat_plan(themes, cats, t, n - 1);
        let b = block(themes[t], cats[n - 1], t, n - 1);
        assert(increasing(b));
        lemma_increasing_concat(a, b, t * 10000 + (n - 1) * 100);
        assert forall|i: int| 0 <= i < (a + b).len() implies {
            let p = #[trigger] (a + b)[i].0;
            t * 10000 <= p <= t * 10000 + n * 100 - 46
        } by {
            if i < a.len() {
                assert((a + b)[i] == a[i]);
            } else {
                assert((a + b)[i] == b[i - a.len()]);
            }
        }
    }
}

proof fn lemma_theme_plan_order(themes: Seq<Seq<char>>, cats: Seq<Seq<char>>, m: int)
    requires
        0 <= m,
        cats.len() <= 100,
    ensures
        increasing(theme_plan(themes, cats, m)),
        forall|i: int| 0 <= i < theme_plan(themes, cats, m).len() ==>
            0 <= #[trigger] theme_plan(themes, cats, m)[i].0 < m * 10000,
    decreases m,
{
    if m > 0 {
        lemma_theme_plan_order(themes, cats, m - 1);
        lemma_cat_plan_order(themes, cats, m - 1, cats.len() as int);
        let a = theme_plan(themes, cats, m - 1);
        let b = cat_plan(themes, cats, m - 1, cats.len() as int);
        lemma_increasing_concat(a, b, (m - 1) * 10000);
        assert forall|i: int| 0 <= i < (a + b).len() implies 0 <= #[trigger] (a + b)[i].0 < m * 10000 by {
            if i < a.len() {
                assert((a + b)[i] == a[i]);
            } else {
                assert((a + b)[i] == b[i - a.len()]);
            }
        }
    }
}

/// Directories are scanned in priority order: each candidate has a lower
/// (better) priority than every later one, so earlier themes beat later
/// ones, and within a theme earlier categories and better sizes win. This
/// holds for up to a hundred categories; with more, a category's
/// priorities reach into the next theme's.
pub proof fn law_scan_plan_in_priority_order(themes: Seq<Seq<char>>, cats: Seq<Seq<char>>)
    requires
        cats.len() <= 100,
        themes.len() * 10000 + cats.len() * 100 + 100 <= usize::MAX,
    ensures
        increasing(scan_plan(themes, cats)),
{
    lemma_theme_plan_order(themes, cats, themes.len() as int);
    let a = theme_plan(themes, cats, themes.len() as int);
    let b = seq![(usize::MAX as int, "/usr/share/pixmaps"@)];
    lemma_increasing_concat(a, b, (themes.len() * 10000) as int);
    assert(a.push((usize::MAX as int, "/usr/share/pixmaps"@)) =~= a + b);
}

proof fn lemma_cat_plan_at(themes: Seq<Seq<char>>, cats: Seq<Seq<char>>, t: int, n: int, c: int, j: int)
    requires
        0 <= c < n,
        0 <= j < 16,
    ensures
        cat_plan(themes, cats, t, n).len() == 16 * n,
        cat_plan(themes, cats, t, n)[16 * c + j] == block(themes[t], cats[c], t, c)[j],
    decreases n,
{
    lemma_cat_plan_len(themes, cats, t, n - 1);
    let a = cat_plan(themes, cats, t, n - 1);
    let b = block(themes[t], cats[n - 1], t, n - 1);
    if c < n - 1 {
        lemma_cat_plan_at(themes, cats, t, n - 1, c, j);
        assert((a + b)[16 * c + j] == a[16 * c + j]);
    } else {
        assert((a + b)[16 * c + j] == b[j]);
    }
}

proof fn lemma_cat_plan_len(themes: Seq<Seq<char>>, cats: Seq<Seq<char>>, t: int, n: int)
    requires
        0 <= n,
    ensures
        cat_plan(themes, cats, t, n).len() == 16 * n,
    decreases n,
{
    if n > 0 {
        lemma_cat_plan_len(themes, cats, t, n - 1);
    }
}

proof fn lemma_theme_plan_at(themes: Seq<Seq<char>>, cats: Seq<Seq<char>>, m: int, t: int, k: int)
    requires
        0 <= t < m,
        0 <= k < 16 * cats.len(),
    ensures
        theme_plan(themes, cats, m).len() == (16 * cats.len()) * m,
        theme_plan(themes, cats, m)[(16 * cats.len()) * t + k] == cat_plan(themes, cats, t, cats.len() as int)[k],
    decreases m,
{
    let w = 16 * cats.len();
    lemma_theme_plan_len(themes, cats, m - 1);
    lemma_cat_plan_len(themes, cats, m - 1, cats.len() as int);
    let a = theme_plan(themes, cats, m - 1);
    let b = cat_plan(themes, cats, m - 1, cats.len() as int);
    assert(w * (m - 1) + w == w * m) by (nonlinear_arith);
    if t < m - 1 {
        lemma_theme_plan_at(themes, cats, m - 1, t, k);
        assert(w * t + w <= w * (m - 1)) by (nonlinear_arith)
            requires t < m - 1, w >= 0;
        assert((a + b)[w * t + k] == a[w * t + k]);
    } else {
        assert((a + b)[w * t + k] == b[k]);
    }
}

proof fn lemma_theme_plan_len(themes: Seq<Seq<char>>, cats: Seq<Seq<char>>, m: int)
    requires
        0 <= m,
    ensures
        theme_plan(themes, cats, m).len() == (16 * cats.len()) * m,
    decreases m,
{
    if m > 0 {
        lemma_theme_plan_len(themes, cats, m - 1);
        lemma_cat_plan_len(themes, cats, m - 1, cats.len() as int);
        let w = 16 * cats.len();
        assert(w * (m - 1) + w == w * m) by (nonlinear_arith);
    } else {
        assert((16 * cats.len()) * m == 0) by (nonlinear_arith) requires m == 0;
    }
}

/// For each theme `t` and category `c` the scan plan holds, as its
/// `16 * (t * |cats| + c) + j`-th entry for `j < 11`, the `j`-th of the
/// eleven distinct standard size directories scalable, 48x48, 32x32, 64x64,
/// 24x24, 96x96, 128x128, 256x256, 22x22, 16x16, 512x512:
/// `/usr/share/icons/{theme}/{size}/{category}` at priority
/// `t * 10000 + c * 100 + j`.
pub proof fn law_scan_plan_sizes(themes: Seq<Seq<char>>, cats: Seq<Seq<char>>, t: int, c: int, j: int, k: int)
    requires
        0 <= t < themes.len(),
        0 <= c < cats.len(),
        0 <= j < 11,
        0 <= k < 11,
    ensures
        ({
            let sizes = seq!["scalable"@, "48x48"@, "32x32"@, "64x64"@, "24x24"@, "96x96"@,
                "128x128"@, "256x256"@, "22x22"@, "16x16"@, "512x512"@];
            &&& scan_plan(themes, cats)[16 * (t * cats.len() + c) + j]
                == (t * 10000 + c * 100 + j, "/usr/share/icons/"@ + themes[t] + "/"@ + sizes[j] + "/"@ + cats[c])
            &&& (j != k ==> sizes[j] != sizes[k])
        }),
{
    let sizes = seq!["scalable"@, "48x48"@, "32x32"@, "64x64"@, "24x24"@, "96x96"@,
        "128x128"@, "256x256"@, "22x22"@, "16x16"@, "512x512"@];
    let w = 16 * cats.len();
    lemma_cat_plan_at(themes, cats, t, cats.len() as int, c, j);
    lemma_theme_plan_at(themes, cats, themes.len() as int, t, 16 * c + j);
    assert(16 * (t * cats.len() + c) + j == w * t + (16 * c + j)) by (nonlinear_arith)
        requires w == 16 * cats.len();
    let tp = theme_plan(themes, cats, themes.len() as int);
    assert(w * t + (16 * c + j) < tp.len()) by (nonlinear_arith)
        requires tp.len() == w * themes.len(), t < themes.len(), 16 * c + j < w;
    assert(scan_plan(themes, cats)[w * t + (16 * c + j)] == tp[w * t + (16 * c + j)]);
    reveal_strlit("scalable");
    reveal_strlit("48x48");
    reveal_strlit("32x32");
    reveal_strlit("64x64");
    reveal_strlit("24x24");
    reveal_strlit("96x96");
    reveal_strlit("128x128");
    reveal_strlit("256x256");
    reveal_strlit("22x22");
    reveal_strlit("16x16");
    reveal_strlit("512x512");
    assert(size_dir(j) == sizes[j]);
    if j != k {
        assert(sizes[j] != sizes[k]) by {
            if sizes[j].len() == sizes[k].len() {
                if sizes[j].len() == 5 {
                    assert(sizes[j][0] != sizes[k][0] || sizes[j][1] != sizes[k][1]);
                } else if sizes[j].len() == 7 {
                    assert(sizes[j][0] != sizes[k][0] || sizes[j][1] != sizes[k][1]);
                }
            }
        }
    }
}

pub open spec fn str_views(v: Seq<String>) -> Seq<Seq<char>> {
    v.map_values(|s: String| s@)
}

fn path_of(parts: &[&str]) -> (r: String)
    ensures
        r@ == parts@.fold_left(Seq::<char>::empty(), |acc: Seq<char>, p: &str| acc + p@),
{
    let mut out: Vec<char> = Vec::new();
    let mut i: usize = 0;
    while i < parts.len()
        invariant
            i <= parts@.len(),
            out@ == parts@.take(i as int).fold_left(Seq::<char>::empty(), |acc: Seq<char>, p: &str| acc + p@),
        decreases parts@.len() - i,
    {
        let cs = chars_of(parts[i]);
        push_all(&mut out, cs.as_slice());
        proof {
            let f = |acc: Seq<char>, p: &str| acc + p@;
            assert(parts@.take(i + 1).drop_last() =~= parts@.take(i as int));
        }
        i = i + 1;
    }
    assert(parts@.take(i as int) =~= parts@);
    string_from_chars(out.as_slice())
}

/// The directories to scan for `categories` in `themes`, in scan order;
/// the application keeps those that exist.
pub fn scan_candidates(themes: &Vec<String>, categories: &Vec<String>) -> (r: Vec<ScanDir>)
    requires
        themes@.len() * 10000 + categories@.len() * 100 + 100 <= usize::MAX,
    ensures
        scan_view(r@) == scan_plan(str_views(themes@), str_views(categories@)),
{
    let ghost ts = str_views(themes@);
    let ghost cs = str_views(categories@);
    let mut out: Vec<ScanDir> = Vec::new();
    let mut t: usize = 0;
    while t < themes.len()
        invariant
            t <= themes@.len(),
            themes@.len() * 10000 + categories@.len() * 100 + 100 <= usize::MAX,
            ts == str_views(themes@),
            cs == str_views(categories@),
            scan_view(out@) == theme_plan(ts, cs, t as int),
        decreases themes@.len() - t,
    {
        let mut c: usize = 0;
        while c < categories.len()
            invariant
                t < themes@.len(),
                c <= categories@.len(),
                themes@.len() * 10000 + categories@.len() * 100 + 100 <= usize::MAX,
                ts == str_views(themes@),
                cs == str_views(categories@),
                scan_view(out@) == theme_plan(ts, cs, t as int) + cat_plan(ts, cs, t as int, c as int),
            decreases categories@.len() - c,
        {
            let base: usize = t * 10000 + c * 100;
            let ghost before = scan_view(out@);
            let ghost blk = block(ts[t as int], cs[c as int], t as int, c as int);
            let mut j: usize = 0;
            while j < 16
                invariant
                    t < themes@.len(),
                    c < categories@.len(),
                    j <= 16,
                    base == t * 10000 + c * 100,
                    base + 100 <= usize::MAX,
                    ts == str_views(themes@),
                    cs == str_views(categories@),
                    blk == block(ts[t as int], cs[c as int], t as int, c as int),
                    scan_view(out@) == before + blk.take(j as int),
                decreases 16 - j,
            {
                let theme = themes[t].as_str();
                let cat = categories[c].as_str();
                let d = if j < 11 {
                    let parts = [ "/usr/share/icons/", theme, "/", size_dir_exec(j), "/", cat ];
                    ScanDir { priority: base + j, path: path_of(&parts) }
                } else {
                    let parts = [ "/usr/share/icons/", theme, "/", cat, "/", breeze_size_exec(j - 11) ];
                    ScanDir { priority: base + 50 + (j - 11), path: path_of(&parts) }
                };
                proof {
                    reveal_with_fuel(Seq::fold_left, 7);
                    assert(d.priority == blk[j as int].0);
                    assert(d.path@ == blk[j as int].1);
                }
                let ghost prev = out@;
                let ghost dv = (d.priority as int, d.path@);
                out.push(d);
                proof {
                    assert(scan_view(out@) =~= scan_view(prev).push(dv));
                    assert(blk.take(j + 1) =~= blk.take(j as int).push(blk[j as int]));
                }
                j = j + 1;
            }
            assert(blk.take(16) =~= blk);
            c = c + 1;
        }
        t = t + 1;
    }
    let pix = ScanDir { priority: usize::MAX, path: string_from_chars(chars_of("/usr/share/pixmaps").as_slice()) };
    out.push(pix);
    assert(scan_view(out@) =~= scan_plan(ts, cs));
    out
}

/// The non-empty trimmed pieces of a comma-separated list, in order.
pub open spec fn nonempty_trimmed(ps: Seq<Seq<char>>) -> Seq<Seq<char>>
    decreases ps.len(),
{
    if ps.len() == 0 {
        Seq::empty()
    } else {
        let r = nonempty_trimmed(ps.drop_last());
        if trim(ps.last()).len() > 0 { r.push(trim(ps.last())) } else { r }
    }
}

/// The parents named by the first `Inherits=` line of an `index.theme`
/// file, in order; none without such a line.
pub open spec fn inherits_of(ls: Seq<Seq<char>>) -> Seq<Seq<char>>
    decreases ls.len(),
{
    if ls.len() == 0 {
        Seq::empty()
    } else if has_prefix(ls[0], "Inherits="@) {
        nonempty_trimmed(split_on(ls[0].skip("Inherits="@.len() as int), ','))
    } else {
        inherits_of(ls.skip(1))
    }
}

/// The parent themes that an `index.theme` file names.
pub fn parse_inherits(content: &str) -> (r: Vec<String>)
    ensures
        str_views(r@) == inherits_of(lines(content@)),
{
    let cs = chars_of(content);
    let ls = lines_of(cs.as_slice());
    let key = chars_of("Inherits=");
    let ghost all = views(ls@);
    assert(all.skip(0) =~= all);
    let mut i: usize = 0;
    while i < ls.len()
        invariant
            i <= ls@.len(),
            all == views(ls@),
            all == lines(content@),
            key@ == "Inherits="@,
            inherits_of(all) == inherits_of(all.skip(i as int)),
        decreases ls@.len() - i,
    {
        assert(all.skip(i as int)[0] == ls@[i as int]@);
        if starts_with(ls[i].as_slice(), key.as_slice()) {
            let line = &ls[i];
            let mut rest: Vec<char> = Vec::new();
            let mut k: usize = key.len();
            while k < line.len()
                invariant
                    key@.len() <= k <= line@.len(),
                    rest@ == line@.subrange(key@.len() as int, k as int),
                decreases line@.len() - k,
            {
                rest.push(line[k]);
                k = k + 1;
                assert(rest@ =~= line@.subrange(key@.len() as int, k as int));
            }
            assert(rest@ =~= line@.skip(key@.len() as int));
            let pieces = split_chars(rest.as_slice(), ',');
            let mut out: Vec<String> = Vec::new();
            let mut j: usize = 0;
            while j < pieces.len()
                invariant
                    j <= pieces@.len(),
                    str_views(out@) == nonempty_trimmed(views(pieces@).take(j as int)),
                decreases pieces@.len() - j,
            {
                let t = trim_chars(pieces[j].as_slice());
                proof {
                    assert(views(pieces@).take(j + 1).drop_last() =~= views(pieces@).take(j as int));
                    assert(views(pieces@).take(j + 1).last() == pieces@[j as int]@);
                }
                if t.len() > 0 {
                    let ghost prev = out@;
                    out.push(string_from_chars(t.as_slice()));
                    assert(str_views(out@) =~= str_views(prev).push(t@));
                }
                j = j + 1;
            }
            assert(views(pieces@).take(j as int) =~= views(pieces@));
            return out;
        }
        assert(all.skip(i as int).skip(1) =~= all.skip(i + 1));
        i = i + 1;
    }
    Vec::new()
}

/// A value with its leading `=` and space characters removed.
pub open spec fn strip_eq_sp(s: Seq<char>) -> Seq<char>
    decreases s.len(),
{
    if s.len() > 0 && (s[0] == '=' || s[0] == ' ') { strip_eq_sp(s.drop_first()) } else { s }
}

/// The icon theme that the first `gtk-icon-theme-name` line with a
/// non-empty value names, in a GTK `settings.ini`.
pub open spec fn gtk_theme_of(ls: Seq<Seq<char>>) -> Option<Seq<char>>
    decreases ls.len(),
{
    if ls.len() == 0 {
        None
    } else {
        let key = "gtk-icon-theme-name"@;
        let v = trim(strip_eq_sp(ls[0].skip(key.len() as int)));
        if has_prefix(ls[0], key) && v.len() > 0 { Some(v) } else { gtk_theme_of(ls.skip(1)) }
    }
}

/// The icon theme that a GTK `settings.ini` names, if any.
pub fn parse_gtk_icon_theme(content: &str) -> (r: Option<String>)
    ensures
        match r {
            Some(t) => gtk_theme_of(lines(content@)) == Some(t@),
            None => gtk_theme_of(lines(content@)) is None,
        },
{
    let cs = chars_of(content);
    let ls = lines_of(cs.as_slice());
    let key = chars_of("gtk-icon-theme-name");
    let ghost all = views(ls@);
    assert(all.skip(0) =~= all);
    let mut i: usize = 0;
    while i < ls.len()
        invariant
            i <= ls@.len(),
            all == views(ls@),
            all == lines(content@),
            key@ == "gtk-icon-theme-name"@,
            gtk_theme_of(all) == gtk_theme_of(all.skip(i as int)),
        decreases ls@.len() - i,
    {
        assert(all.skip(i as int)[0] == ls@[i as int]@);
        if starts_with(ls[i].as_slice(), key.as_slice()) {
            let line = &ls[i];
            let mut k: usize = key.len();
            while k < line.len() && (line[k] == '=' || line[k] == ' ')
                invariant
                    key@.len() <= k <= line@.len(),
                    strip_eq_sp(line@.skip(key@.len() as int)) == strip_eq_sp(line@.skip(k as int)),
                decreases line@.len() - k,
            {
                assert(line@.skip(k as int).drop_first() =~= line@.skip(k + 1));
                k = k + 1;
            }
            let mut rest: Vec<char> = Vec::new();
            let k0 = k;
            while k < line.len()
                invariant
                    k0 <= k <= line@.len(),
                    rest@ == line@.subrange(k0 as int, k as int),
                decreases line@.len() - k,
            {
                rest.push(line[k]);
                k = k + 1;
                assert(rest@ =~= line@.subrange(k0 as int, k as int));
            }
            assert(rest@ =~= line@.skip(k0 as int));
            assert(strip_eq_sp(line@.skip(k0 as int)) == line@.skip(k0 as int));
            let v = trim_chars(rest.as_slice());
            if v.len() > 0 {
                return Some(string_from_chars(v.as_slice()));
            }
        }
        assert(all.skip(i as int).skip(1) =~= all.skip(i + 1));
        i = i + 1;
    }
    None
}

/// Whether `name` is already in the theme search order.
pub fn theme_listed(themes: &Vec<String>, name: &str) -> (r: bool)
    ensures
        r == str_views(themes@).contains(name@),
{
    let mut i: usize = 0;
    while i < themes.len()
        invariant
            i <= themes@.len(),
            forall|j: int| 0 <= j < i ==> themes@[j]@ != name@,
        decreases themes@.len() - i,
    {
        if str_eq(themes[i].as_str(), name) {
            assert(str_views(themes@)[i as int] == name@);
            return true;
        }
        i = i + 1;
    }
    assert(!str_views(themes@).contains(name@)) by {
        if str_views(themes@).contains(name@) {
            let j = choose|j: int| 0 <= j < str_views(themes@).len() && str_views(themes@)[j] == name@;
            assert(themes@[j]@ == name@);
        }
    }
    false
}

/// The extension of a file name, as `Path::extension` gives it.
pub open spec fn ext_of(file_name: Seq<char>) -> Option<Seq<char>> {
    let k = last_dot(file_name);
    if k > 0 { Some(file_name.skip(k + 1)) } else { None }
}

fn ext_chars(file_name: &[char]) -> (r: Option<Vec<char>>)
    ensures
        match r {
            Some(e) => ext_of(file_name@) == Some(e@),
            None => ext_of(file_name@) is None,
        },
{
    let mut k: usize = file_name.len();
    assert(file_name@.take(k as int) =~= file_name@);
    while k > 0 && file_name[k - 1] != '.'
        invariant
            k <= file_name@.len(),
            last_dot(file_name@) == last_dot(file_name@.take(k as int)),
        decreases k,
    {
        assert(file_name@.take(k as int).drop_last() =~= file_name@.take(k - 1));
        k = k - 1;
    }
    if k <= 1 {
        if k == 1 {
            assert(file_name@.take(1).drop_last() =~= file_name@.take(0));
        }
        return None;
    }
    assert(file_name@.take(k as int).drop_last() =~= file_name@.take(k - 1));
    let mut e: Vec<char> = Vec::new();
    let mut i: usize = k;
    while i < file_name.len()
        invariant
            k <= i <= file_name@.len(),
            e@ == file_name@.subrange(k as int, i as int),
        decreases file_name@.len() - i,
    {
        e.push(file_name[i]);
        i = i + 1;
        assert(e@ =~= file_name@.subrange(k as int, i as int));
    }
    assert(e@ =~= file_name@.skip(k as int));
    Some(e)
}

/// The image formats the launcher preloads icons in.
#[derive(PartialEq, Eq, Structural, Clone, Copy, Debug)]
pub enum ImageKind {
    Svg,
    Png,
    Jpeg,
}

pub open spec fn spec_image_kind(file_name: Seq<char>) -> Option<ImageKind> {
    match ext_of(file_name) {
        Some(e) => if e == "svg"@ || e == "svgz"@ {
            Some(ImageKind::Svg)
        } else if e == "png"@ {
            Some(ImageKind::Png)
        } else if e == "jpg"@ || e == "jpeg"@ {
            Some(ImageKind::Jpeg)
        } else {
            None
        },
        None => None,
    }
}

/// The image format of an icon file, by its extension (case-sensitive);
/// `None` for one the launcher does not load.
pub fn image_kind_for(file_name: &str) -> (r: Option<ImageKind>)
    ensures
        r == spec_image_kind(file_name@),
{
    let cs = chars_of(file_name);
    match ext_chars(cs.as_slice()) {
        None => None,
        Some(e) => {
            let svg = chars_of("svg");
            let svgz = chars_of("svgz");
            let png = chars_of("png");
            let jpg = chars_of("jpg");
            let jpeg = chars_of("jpeg");
            if chars_eq(e.as_slice(), svg.as_slice()) || chars_eq(e.as_slice(), svgz.as_slice()) {
                Some(ImageKind::Svg)
            } else if chars_eq(e.as_slice(), png.as_slice()) {
                Some(ImageKind::Png)
            } else if chars_eq(e.as_slice(), jpg.as_slice()) || chars_eq(e.as_slice(), jpeg.as_slice()) {
                Some(ImageKind::Jpeg)
            } else {
                None
            }
        }
    }
}

impl IconCache {
    /// The icon path for a desktop entry's `Icon=` value: an absolute path
    /// is used as it stands when the file exists, any other name is looked
    /// up in the cache.
    pub fn resolve_icon_path(&self, icon_name: &str, absolute_exists: bool) -> (r: Option<String>)
        ensures
            icon_name@.len() > 0 && icon_name@[0] == '/' ==>
                r.deep_view() == (if absolute_exists { Some(icon_name@) } else { None::<Seq<char>> }),
            !(icon_name@.len() > 0 && icon_name@[0] == '/') ==> match r {
                Some(p) => self.icons().contains_key(icon_name@) && p@ == self.icons()[icon_name@],
                None => !self.icons().contains_key(icon_name@),
            },
    {
        let cs = chars_of(icon_name);
        if cs.len() > 0 && cs[0] == '/' {
            if absolute_exists { Some(string_from_chars(cs.as_slice())) } else { None }
        } else {
            match self.lookup(icon_name) {
                Some(p) => Some(string_from_chars(chars_of(p).as_slice())),
                None => None,
            }
        }
    }
}

} // verus!
