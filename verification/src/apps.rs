//! The app index: entries, de-duplication by path and ordering by display name.

use vstd::prelude::*;

use crate::order::{chars_le, lemma_text_le_antisymmetric, lemma_text_le_total, lemma_text_le_transitive, text_le};
use crate::text::{blank, chars_of, contains_text, find_text, has_suffix, is_blank, join_component, joined, same_text};

verus! {

/// One installed application.
#[derive(Clone, Debug, PartialEq)]
pub struct AppEntry {
    pub name: String,
    pub path: String,
    pub bundle_id: Option<String>,
}

/// The mathematical value of an [`AppEntry`].
pub ghost struct AppEntryView {
    pub name: Seq<char>,
    pub path: Seq<char>,
    pub bundle_id: Option<Seq<char>>,
}

/// The value of an optional text.
pub open spec fn opt_text(o: Option<String>) -> Option<Seq<char>> {
    match o {
        Some(s) => Some(s@),
        None => None,
    }
}

impl View for AppEntry {
    type V = AppEntryView;

    open spec fn view(&self) -> AppEntryView {
        AppEntryView { name: self.name@, path: self.path@, bundle_id: opt_text(self.bundle_id) }
    }
}

/// The values of a sequence of entries.
pub open spec fn views(s: Seq<AppEntry>) -> Seq<AppEntryView> {
    s.map_values(|e: AppEntry| e@)
}

/// The values of a sequence of entry lists.
pub open spec fn dir_views(s: Seq<Vec<AppEntry>>) -> Seq<Seq<AppEntryView>> {
    s.map_values(|v: Vec<AppEntry>| views(v@))
}

/// The name `to_lowercase` gives for a text (Unicode full lowercase mapping).
pub uninterp spec fn unicode_lowercase(s: Seq<char>) -> Seq<char>;

/// Calls `str::to_lowercase`; its result is named [`unicode_lowercase`] of the input.
#[verifier::external_body]
pub(crate) fn to_lowercase(s: &str) -> (r: String)
    ensures
        r@ == unicode_lowercase(s@),
{
    s.to_lowercase()
}

/// The key entries are ordered by: the lowercased display name.
pub open spec fn sort_key(e: AppEntryView) -> Seq<char> {
    unicode_lowercase(e.name)
}

/// Some entry of `s` has path `p`.
pub open spec fn path_seen(s: Seq<AppEntryView>, p: Seq<char>) -> bool {
    exists|j: int| 0 <= j < s.len() && (#[trigger] s[j]).path == p
}

/// The entries of `s` whose path has not occurred earlier in `s`, in order.
pub open spec fn unique_by_path(s: Seq<AppEntryView>) -> Seq<AppEntryView>
    decreases s.len(),
{
    if s.len() == 0 {
        s
    } else if path_seen(s.drop_last(), s.last().path) {
        unique_by_path(s.drop_last())
    } else {
        unique_by_path(s.drop_last()).push(s.last())
    }
}

/// The concatenation of the lists of `s`, in order.
pub open spec fn flatten(s: Seq<Seq<AppEntryView>>) -> Seq<AppEntryView>
    decreases s.len(),
{
    if s.len() == 0 {
        Seq::empty()
    } else {
        flatten(s.drop_last()) + s.last()
    }
}

/// No two entries share a path.
pub open spec fn paths_unique(s: Seq<AppEntryView>) -> bool {
    forall|i: int, j: int| 0 <= i < j < s.len() ==> (#[trigger] s[i]).path != (#[trigger] s[j]).path
}

/// Entries are in non-decreasing order of [`sort_key`].
pub open spec fn sorted_by_name(s: Seq<AppEntryView>) -> bool {
    forall|i: int, j: int|
        0 <= i < j < s.len() ==> text_le(sort_key(#[trigger] s[i]), sort_key(#[trigger] s[j]))
}

/// Some position of `perm` holds `j`.
pub open spec fn position_used(perm: Seq<int>, j: int) -> bool {
    exists|k: int| 0 <= k < perm.len() && perm[k] == j
}

/// `out[k]` is `inp[perm[k]]`, each position of `inp` is used once, and entries with
/// equal keys keep their relative order.
pub open spec fn is_stable_reordering(
    out: Seq<AppEntryView>,
    inp: Seq<AppEntryView>,
    perm: Seq<int>,
) -> bool {
    &&& perm.len() == out.len()
    &&& out.len() == inp.len()
    &&& forall|k: int| 0 <= k < perm.len() ==> 0 <= #[trigger] perm[k] < inp.len()
    &&& forall|k: int| 0 <= k < perm.len() ==> out[k] == inp[#[trigger] perm[k]]
    &&& forall|k: int, l: int| 0 <= k < l < perm.len() ==> #[trigger] perm[k] != #[trigger] perm[l]
    &&& forall|j: int| 0 <= j < inp.len() ==> #[trigger] position_used(perm, j)
    &&& forall|k: int, l: int|
        0 <= k < l < perm.len() && sort_key(out[k]) == sort_key(out[l]) ==> #[trigger] perm[k]
            < #[trigger] perm[l]
}

/// `out` is `inp` sorted by [`sort_key`] with a stable sort.
pub open spec fn stable_sort_of(out: Seq<AppEntryView>, inp: Seq<AppEntryView>) -> bool {
    &&& sorted_by_name(out)
    &&& exists|perm: Seq<int>| is_stable_reordering(out, inp, perm)
}

/// An entry with the same value as `e`.
pub fn copy_entry(e: &AppEntry) -> (r: AppEntry)
    ensures
        r@ == e@,
{
    let bundle_id = match &e.bundle_id {
        Some(b) => Some(b.clone()),
        None => None,
    };
    AppEntry { name: e.name.clone(), path: e.path.clone(), bundle_id }
}

/// Whether some entry of `out` has path `p`.
fn has_path(out: &Vec<AppEntry>, p: &String) -> (r: bool)
    ensures
        r == path_seen(views(out@), p@),
{
    let mut i: usize = 0;
    while i < out.len()
        invariant
            i <= out.len(),
            forall|j: int| 0 <= j < i ==> (#[trigger] out@[j]).path@ != p@,
        decreases out.len() - i,
    {
        if out[i].path == *p {
            assert(views(out@)[i as int].path == p@);
            return true;
        }
        i = i + 1;
    }
    assert forall|j: int| 0 <= j < views(out@).len() implies (#[trigger] views(out@)[j]).path != p@ by {
        assert(views(out@)[j] == out@[j]@);
    }
    false
}

/// The paths met in `unique_by_path(s)` are those met in `s`.
pub proof fn lemma_unique_paths_seen(s: Seq<AppEntryView>, p: Seq<char>)
    ensures
        path_seen(unique_by_path(s), p) == path_seen(s, p),
    decreases s.len(),
{
    if s.len() > 0 {
        let d = s.drop_last();
        lemma_unique_paths_seen(d, p);
        lemma_unique_paths_seen(d, s.last().path);
        if path_seen(s, p) {
            let j = choose|j: int| 0 <= j < s.len() && (#[trigger] s[j]).path == p;
            if j < s.len() - 1 {
                assert(d[j] == s[j]);
            }
        }
        if path_seen(d, p) {
            let j = choose|j: int| 0 <= j < d.len() && (#[trigger] d[j]).path == p;
            assert(s[j] == d[j]);
        }
        let u = unique_by_path(d);
        if !path_seen(d, s.last().path) {
            let u2 = u.push(s.last());
            if path_seen(u, p) {
                let j = choose|j: int| 0 <= j < u.len() && (#[trigger] u[j]).path == p;
                assert(u2[j] == u[j]);
            }
            if path_seen(u2, p) {
                let j = choose|j: int| 0 <= j < u2.len() && (#[trigger] u2[j]).path == p;
                if j < u.len() {
                    assert(u2[j] == u[j]);
                }
            }
            assert(u2[u.len() as int] == s.last());
            assert(s[s.len() - 1] == s.last());
        }
    }
}

/// `unique_by_path` leaves no two entries with the same path.
pub proof fn lemma_unique_by_path_unique(s: Seq<AppEntryView>)
    ensures
        paths_unique(unique_by_path(s)),
    decreases s.len(),
{
    if s.len() > 0 {
        let d = s.drop_last();
        lemma_unique_by_path_unique(d);
        if !path_seen(d, s.last().path) {
            let u = unique_by_path(d);
            let u2 = u.push(s.last());
            lemma_unique_paths_seen(d, s.last().path);
            assert forall|i: int, j: int| 0 <= i < j < u2.len() implies (#[trigger] u2[i]).path
                != (#[trigger] u2[j]).path by {
                if j == u.len() {
                    assert(u2[i] == u[i]);
                    if u[i].path == s.last().path {
                        assert(path_seen(u, s.last().path));
                    }
                } else {
                    assert(u2[i] == u[i]);
                    assert(u2[j] == u[j]);
                }
            }
        }
    }
}

/// The sort key of an entry, as characters.
fn key_of(e: &AppEntry) -> (k: Vec<char>)
    ensures
        k@ == sort_key(e@),
{
    let lower = to_lowercase(e.name.as_str());
    chars_of(lower.as_str())
}

/// Keeps the first entry for each path, scanning the lists in order, and reports after
/// each list how many distinct entries have been found so far.
pub fn collect_unique(scanned: &Vec<Vec<AppEntry>>) -> (res: (Vec<AppEntry>, Vec<usize>))
    ensures
        views(res.0@) == unique_by_path(flatten(dir_views(scanned@))),
        res.1@.len() == scanned@.len(),
        forall|d: int|
            0 <= d < scanned@.len() ==> #[trigger] res.1@[d] as int == unique_by_path(
                flatten(dir_views(scanned@).take(d + 1)),
            ).len(),
{
    let ghost sv = dir_views(scanned@);
    let mut out: Vec<AppEntry> = Vec::new();
    let mut counts: Vec<usize> = Vec::new();
    let mut d: usize = 0;
    assert(sv.take(0) =~= Seq::<Seq<AppEntryView>>::empty());
    while d < scanned.len()
        invariant
            sv == dir_views(scanned@),
            d <= scanned.len(),
            views(out@) == unique_by_path(flatten(sv.take(d as int))),
            counts@.len() == d,
            forall|e: int|
                0 <= e < d ==> #[trigger] counts@[e] as int == unique_by_path(
                    flatten(sv.take(e + 1)),
                ).len(),
        decreases scanned.len() - d,
    {
        let dir = &scanned[d];
        let ghost base = flatten(sv.take(d as int));
        assert(sv[d as int] == views(dir@));
        let mut j: usize = 0;
        assert(base + views(dir@).take(0) =~= base);
        while j < dir.len()
            invariant
                sv == dir_views(scanned@),
                d < scanned.len(),
                dir == &scanned@[d as int],
                base == flatten(sv.take(d as int)),
                j <= dir.len(),
                views(out@) == unique_by_path(base + views(dir@).take(j as int)),
            decreases dir.len() - j,
        {
            let e = &dir[j];
            let ghost pre = base + views(dir@).take(j as int);
            let ghost nxt = base + views(dir@).take(j + 1);
            assert(nxt.drop_last() =~= pre);
            assert(nxt.last() == e@);
            proof {
                lemma_unique_paths_seen(pre, e@.path);
            }
            if !has_path(&out, &e.path) {
                let c = copy_entry(e);
                out.push(c);
                assert(views(out@) =~= views(out@).drop_last().push(e@));
            }
            j = j + 1;
        }
        assert(views(dir@).take(dir@.len() as int) =~= views(dir@));
        assert(sv.take(d + 1).drop_last() =~= sv.take(d as int));
        assert(sv.take(d + 1).last() == sv[d as int]);
        counts.push(out.len());
        d = d + 1;
    }
    assert(sv.take(scanned@.len() as int) =~= sv);
    (out, counts)
}

/// Sorts entries by [`sort_key`], keeping entries with equal keys in their input order.
pub fn sort_by_name(entries: Vec<AppEntry>) -> (r: Vec<AppEntry>)
    ensures
        stable_sort_of(views(r@), views(entries@)),
{
    let ghost inp = views(entries@);
    let mut out: Vec<AppEntry> = Vec::new();
    let mut keys: Vec<Vec<char>> = Vec::new();
    let ghost mut perm: Seq<int> = Seq::empty();
    let mut i: usize = 0;
    while i < entries.len()
        invariant
            inp == views(entries@),
            i <= entries.len(),
            out@.len() == i,
            keys@.len() == i,
            forall|q: int| 0 <= q < i ==> (#[trigger] keys@[q])@ == sort_key(out@[q]@),
            sorted_by_name(views(out@)),
            perm.len() == i,
            forall|k: int| 0 <= k < perm.len() ==> 0 <= #[trigger] perm[k] < i,
            forall|k: int| 0 <= k < perm.len() ==> views(out@)[k] == inp[#[trigger] perm[k]],
            forall|k: int, l: int| 0 <= k < l < perm.len() ==> #[trigger] perm[k] != #[trigger] perm[l],
            forall|j: int| 0 <= j < i ==> #[trigger] position_used(perm, j),
            forall|k: int, l: int|
                0 <= k < l < perm.len() && sort_key(views(out@)[k]) == sort_key(views(out@)[l])
                    ==> #[trigger] perm[k] < #[trigger] perm[l],
        decreases entries.len() - i,
    {
        let e = copy_entry(&entries[i]);
        let k = key_of(&e);
        let mut p: usize = 0;
        while p < out.len() && chars_le(&keys[p], &k)
            invariant
                p <= out.len(),
                out@.len() == keys@.len(),
                forall|q: int| 0 <= q < out@.len() ==> (#[trigger] keys@[q])@ == sort_key(out@[q]@),
                forall|q: int| 0 <= q < p ==> text_le(sort_key(out@[q]@), k@),
            decreases out.len() - p,
        {
            p = p + 1;
        }
        let ghost old_out = views(out@);
        let ghost old_perm = perm;
        proof {
            // Every entry from `p` on sorts strictly after the new key.
            if p < out@.len() {
                assert(!text_le(sort_key(old_out[p as int]), k@)) by {
                    assert(keys@[p as int]@ == sort_key(out@[p as int]@));
                }
            }
        }
        out.insert(p, e);
        keys.insert(p, k);
        proof {
            perm = old_perm.insert(p as int, i as int);
            let nv = views(out@);
            assert(nv =~= old_out.insert(p as int, inp[i as int]));
            assert forall|a: int, b: int| 0 <= a < b < nv.len() implies text_le(
                sort_key(#[trigger] nv[a]),
                sort_key(#[trigger] nv[b]),
            ) by {
                if a < p && b < p {
                    assert(nv[a] == old_out[a] && nv[b] == old_out[b]);
                } else if a < p && b == p {
                    assert(nv[a] == old_out[a]);
                } else if a < p && b > p {
                    assert(nv[a] == old_out[a] && nv[b] == old_out[b - 1]);
                    assert(text_le(sort_key(old_out[a]), sort_key(old_out[b - 1])));
                } else if a == p {
                    assert(nv[b] == old_out[b - 1]);
                    lemma_text_le_total(sort_key(old_out[p as int]), k@);
                    if b - 1 > p {
                        lemma_text_le_transitive(
                            k@,
                            sort_key(old_out[p as int]),
                            sort_key(old_out[b - 1]),
                        );
                    }
                } else {
                    assert(nv[a] == old_out[a - 1] && nv[b] == old_out[b - 1]);
                }
            }
            assert forall|k2: int, l: int|
                0 <= k2 < l < perm.len() && sort_key(nv[k2]) == sort_key(nv[l]) implies #[trigger] perm[k2]
                < #[trigger] perm[l] by {
                if l == p {
                    assert(perm[l] == i);
                    assert(perm[k2] == old_perm[k2]);
                } else if k2 == p {
                    // The entry at `l` sorts strictly after the new key.
                    assert(nv[l] == old_out[l - 1]);
                    lemma_text_le_total(sort_key(old_out[p as int]), k@);
                    if l - 1 > p {
                        assert(text_le(sort_key(old_out[p as int]), sort_key(old_out[l - 1])));
                    }
                    assert(false);
                } else if k2 < p && l < p {
                    assert(perm[k2] == old_perm[k2] && perm[l] == old_perm[l]);
                    assert(nv[k2] == old_out[k2] && nv[l] == old_out[l]);
                } else if k2 < p && l > p {
                    assert(perm[k2] == old_perm[k2] && perm[l] == old_perm[l - 1]);
                    assert(nv[k2] == old_out[k2] && nv[l] == old_out[l - 1]);
                } else {
                    assert(perm[k2] == old_perm[k2 - 1] && perm[l] == old_perm[l - 1]);
                    assert(nv[k2] == old_out[k2 - 1] && nv[l] == old_out[l - 1]);
                }
            }
            assert forall|a: int, b: int| 0 <= a < b < perm.len() implies #[trigger] perm[a]
                != #[trigger] perm[b] by {
                if a < p && b < p {
                    assert(perm[a] == old_perm[a] && perm[b] == old_perm[b]);
                } else if a < p && b > p {
                    assert(perm[a] == old_perm[a] && perm[b] == old_perm[b - 1]);
                } else if a > p {
                    assert(perm[a] == old_perm[a - 1] && perm[b] == old_perm[b - 1]);
                } else if a == p {
                    assert(perm[b] == old_perm[b - 1]);
                } else {
                    assert(perm[a] == old_perm[a]);
                }
            }
            assert forall|a: int| 0 <= a < perm.len() implies 0 <= #[trigger] perm[a] < i + 1
                && nv[a] == inp[perm[a]] by {
                if a < p {
                    assert(perm[a] == old_perm[a]);
                } else if a > p {
                    assert(perm[a] == old_perm[a - 1]);
                }
            }
            assert forall|j: int| 0 <= j < i + 1 implies #[trigger] position_used(perm, j) by {
                if j == i {
                    assert(perm[p as int] == j);
                } else {
                    assert(position_used(old_perm, j));
                    let k0 = choose|k0: int| 0 <= k0 < old_perm.len() && old_perm[k0] == j;
                    if k0 < p {
                        assert(perm[k0] == j);
                    } else {
                        assert(perm[k0 + 1] == j);
                    }
                }
            }
            assert forall|q: int| 0 <= q < out@.len() implies (#[trigger] keys@[q])@ == sort_key(
                out@[q]@,
            ) by {
                assert(out@[q]@ == nv[q]);
            }
        }
        i = i + 1;
    }
    proof {
        assert(is_stable_reordering(views(out@), inp, perm));
    }
    out
}

/// A stable reordering keeps the set of paths.
pub proof fn lemma_reordering_paths(out: Seq<AppEntryView>, inp: Seq<AppEntryView>, perm: Seq<int>, p: Seq<char>)
    requires
        is_stable_reordering(out, inp, perm),
    ensures
        path_seen(out, p) == path_seen(inp, p),
{
    if path_seen(out, p) {
        let k = choose|k: int| 0 <= k < out.len() && (#[trigger] out[k]).path == p;
        assert(inp[perm[k]].path == p);
    }
    if path_seen(inp, p) {
        let j = choose|j: int| 0 <= j < inp.len() && (#[trigger] inp[j]).path == p;
        assert(position_used(perm, j));
        let k = choose|k: int| 0 <= k < perm.len() && perm[k] == j;
        assert(out[k].path == p);
    }
}

/// A stable reordering of entries with distinct paths has distinct paths.
pub proof fn lemma_reordering_unique(out: Seq<AppEntryView>, inp: Seq<AppEntryView>, perm: Seq<int>)
    requires
        is_stable_reordering(out, inp, perm),
        paths_unique(inp),
    ensures
        paths_unique(out),
{
    assert forall|i: int, j: int| 0 <= i < j < out.len() implies (#[trigger] out[i]).path
        != (#[trigger] out[j]).path by {
        assert(out[i] == inp[perm[i]] && out[j] == inp[perm[j]]);
        if perm[i] < perm[j] {
            assert(inp[perm[i]].path != inp[perm[j]].path);
        } else {
            assert(perm[i] != perm[j]);
            assert(inp[perm[j]].path != inp[perm[i]].path);
        }
    }
}

/// Every entry `unique_by_path` keeps is an entry of its input.
pub proof fn lemma_unique_by_path_subset(s: Seq<AppEntryView>, e: AppEntryView)
    requires
        unique_by_path(s).contains(e),
    ensures
        s.contains(e),
    decreases s.len(),
{
    let d = s.drop_last();
    let u = unique_by_path(d);
    if u.contains(e) {
        lemma_unique_by_path_subset(d, e);
        let j = choose|j: int| 0 <= j < d.len() && d[j] == e;
        assert(s[j] == e);
    } else {
        assert(!path_seen(d, s.last().path));
        let j = choose|j: int| 0 <= j < unique_by_path(s).len() && unique_by_path(s)[j] == e;
        assert(unique_by_path(s) == u.push(s.last()));
        if j < u.len() {
            assert(u[j] == e);
        }
        assert(s[s.len() - 1] == e);
    }
}

/// A stable sort of the de-duplicated entries holds only entries of the input.
pub proof fn lemma_sorted_unique_entries_scanned(out: Seq<AppEntryView>, all: Seq<AppEntryView>)
    requires
        stable_sort_of(out, unique_by_path(all)),
    ensures
        forall|i: int| 0 <= i < out.len() ==> all.contains(#[trigger] out[i]),
{
    let u = unique_by_path(all);
    let perm = choose|perm: Seq<int>| is_stable_reordering(out, u, perm);
    assert forall|i: int| 0 <= i < out.len() implies all.contains(#[trigger] out[i]) by {
        assert(out[i] == u[perm[i]]);
        assert(u.contains(out[i]));
        lemma_unique_by_path_subset(all, out[i]);
    }
}

/// Taking out of a stable sort the entry that came last in its input leaves a stable sort
/// of the rest of the input; the entries before it sort at or below it, the entries after
/// it strictly above it.
pub proof fn lemma_stable_sort_drop_last(out: Seq<AppEntryView>, inp: Seq<AppEntryView>) -> (k: int)
    requires
        stable_sort_of(out, inp),
        inp.len() > 0,
    ensures
        0 <= k < out.len(),
        out.len() == inp.len(),
        out[k] == inp.last(),
        stable_sort_of(out.remove(k), inp.drop_last()),
        forall|i: int| 0 <= i < k ==> text_le(sort_key(#[trigger] out[i]), sort_key(inp.last())),
        forall|i: int|
            k < i < out.len() ==> !text_le(sort_key(#[trigger] out[i]), sort_key(inp.last())),
{
    let perm = choose|perm: Seq<int>| is_stable_reordering(out, inp, perm);
    let n = inp.len() - 1;
    assert(position_used(perm, n));
    let k = choose|k: int| 0 <= k < perm.len() && perm[k] == n;
    let o2 = out.remove(k);
    let p2 = perm.remove(k);
    let i2 = inp.drop_last();
    assert forall|a: int| 0 <= a < p2.len() implies 0 <= #[trigger] p2[a] < i2.len() && o2[a]
        == i2[p2[a]] by {
        let a0 = if a < k { a } else { a + 1 };
        assert(p2[a] == perm[a0] && o2[a] == out[a0]);
        if a0 < k {
            assert(perm[a0] != perm[k]);
        } else {
            assert(perm[k] != perm[a0]);
        }
    }
    assert forall|a: int, b: int| 0 <= a < b < p2.len() implies #[trigger] p2[a] != #[trigger] p2[b] by {
        let a0 = if a < k { a } else { a + 1 };
        let b0 = if b < k { b } else { b + 1 };
        assert(p2[a] == perm[a0] && p2[b] == perm[b0]);
    }
    assert forall|j: int| 0 <= j < i2.len() implies #[trigger] position_used(p2, j) by {
        assert(position_used(perm, j));
        let k0 = choose|k0: int| 0 <= k0 < perm.len() && perm[k0] == j;
        if k0 < k {
            assert(p2[k0] == j);
        } else {
            assert(p2[k0 - 1] == j);
        }
    }
    assert forall|a: int, b: int|
        0 <= a < b < p2.len() && sort_key(o2[a]) == sort_key(o2[b]) implies #[trigger] p2[a]
        < #[trigger] p2[b] by {
        let a0 = if a < k { a } else { a + 1 };
        let b0 = if b < k { b } else { b + 1 };
        assert(p2[a] == perm[a0] && p2[b] == perm[b0]);
        assert(o2[a] == out[a0] && o2[b] == out[b0]);
    }
    assert(is_stable_reordering(o2, i2, p2));
    assert forall|a: int, b: int| 0 <= a < b < o2.len() implies text_le(
        sort_key(#[trigger] o2[a]),
        sort_key(#[trigger] o2[b]),
    ) by {
        let a0 = if a < k { a } else { a + 1 };
        let b0 = if b < k { b } else { b + 1 };
        assert(o2[a] == out[a0] && o2[b] == out[b0]);
    }
    assert(out[k] == inp[n]);
    assert forall|i: int| k < i < out.len() implies !text_le(
        sort_key(#[trigger] out[i]),
        sort_key(inp.last()),
    ) by {
        assert(text_le(sort_key(out[k]), sort_key(out[i])));
        if text_le(sort_key(out[i]), sort_key(out[k])) {
            lemma_text_le_antisymmetric(sort_key(out[i]), sort_key(out[k]));
            assert(perm[k] < perm[i]);
            assert(perm[i] < inp.len());
        }
    }
    k
}

/// There is one stable sort by name of a list: two lists that are both stable sorts of the
/// same entries are the same list.
pub proof fn lemma_stable_sort_unique(a: Seq<AppEntryView>, b: Seq<AppEntryView>, inp: Seq<AppEntryView>)
    requires
        stable_sort_of(a, inp),
        stable_sort_of(b, inp),
    ensures
        a == b,
    decreases inp.len(),
{
    if inp.len() == 0 {
        let pa = choose|perm: Seq<int>| is_stable_reordering(a, inp, perm);
        let pb = choose|perm: Seq<int>| is_stable_reordering(b, inp, perm);
        assert(a =~= b);
    } else {
        let x = inp.last();
        let ka = lemma_stable_sort_drop_last(a, inp);
        let kb = lemma_stable_sort_drop_last(b, inp);
        let s = a.remove(ka);
        lemma_stable_sort_unique(s, b.remove(kb), inp.drop_last());
        if ka < kb {
            assert(s[ka] == a[ka + 1]);
            assert(b.remove(kb)[ka] == b[ka]);
            assert(text_le(sort_key(b[ka]), sort_key(x)));
            assert(false);
        } else if kb < ka {
            assert(s[kb] == a[kb]);
            assert(b.remove(kb)[kb] == b[kb + 1]);
            assert(text_le(sort_key(a[kb]), sort_key(x)));
            assert(false);
        }
        assert(a =~= s.insert(ka, x));
        assert(b =~= s.insert(kb, x));
    }
}

/// The app list from per-directory scan results (each inner list holds the `.app`
/// bundles found in one scanned directory, in scan order), de-duplicated by path (the
/// first one found wins) and sorted by display name, case-insensitively and stably; with,
/// for each directory, the number of distinct apps found up to and including it.
pub fn enumerate_with(scanned: &Vec<Vec<AppEntry>>) -> (res: (Vec<AppEntry>, Vec<usize>))
    ensures
        stable_sort_of(views(res.0@), unique_by_path(flatten(dir_views(scanned@)))),
        paths_unique(views(res.0@)),
        sorted_by_name(views(res.0@)),
        forall|p: Seq<char>|
            path_seen(views(res.0@), p) == path_seen(flatten(dir_views(scanned@)), p),
        forall|i: int|
            0 <= i < res.0@.len() ==> flatten(dir_views(scanned@)).contains(#[trigger] views(res.0@)[i]),
        all_app_bundles(flatten(dir_views(scanned@))) ==> all_app_bundles(views(res.0@)),
        res.1@.len() == scanned@.len(),
        forall|d: int|
            0 <= d < scanned@.len() ==> #[trigger] res.1@[d] as int == unique_by_path(
                flatten(dir_views(scanned@).take(d + 1)),
            ).len(),
{
    let (unique, counts) = collect_unique(scanned);
    let sorted = sort_by_name(unique);
    proof {
        let all = flatten(dir_views(scanned@));
        let perm = choose|perm: Seq<int>| is_stable_reordering(views(sorted@), views(unique@), perm);
        lemma_unique_by_path_unique(all);
        lemma_reordering_unique(views(sorted@), views(unique@), perm);
        assert forall|p: Seq<char>| path_seen(views(sorted@), p) == path_seen(all, p) by {
            lemma_reordering_paths(views(sorted@), views(unique@), perm, p);
            lemma_unique_paths_seen(all, p);
        }
        lemma_sorted_unique_entries_scanned(views(sorted@), all);
    }
    (sorted, counts)
}

/// [`enumerate_with`] without the per-directory totals. Its list is the same as
/// [`enumerate_with`]'s: both are the stable sort by name of the same entries, and there
/// is only one (`lemma_stable_sort_unique`).
pub fn enumerate(scanned: &Vec<Vec<AppEntry>>) -> (r: Vec<AppEntry>)
    ensures
        stable_sort_of(views(r@), unique_by_path(flatten(dir_views(scanned@)))),
        paths_unique(views(r@)),
        sorted_by_name(views(r@)),
        forall|p: Seq<char>| path_seen(views(r@), p) == path_seen(flatten(dir_views(scanned@)), p),
        forall|i: int|
            0 <= i < r@.len() ==> flatten(dir_views(scanned@)).contains(#[trigger] views(r@)[i]),
        all_app_bundles(flatten(dir_views(scanned@))) ==> all_app_bundles(views(r@)),
{
    enumerate_with(scanned).0
}

/// Every entry's path ends in `.app`.
pub open spec fn all_app_bundles(s: Seq<AppEntryView>) -> bool {
    forall|i: int| 0 <= i < s.len() ==> has_suffix((#[trigger] s[i]).path, ".app"@)
}

// ---------- scanning decisions ----------

/// The name `Path::extension` gives for a path: the part of its file name after the
/// last `.`, if any.
pub uninterp spec fn path_extension(p: Seq<char>) -> Option<Seq<char>>;

/// The path's text ends with its file name: it is not empty, not `.`, and does not end in
/// `/` or `/.` (which `Path` passes over when it finds the file name).
pub open spec fn ends_in_file_name(p: Seq<char>) -> bool {
    &&& p.len() > 0
    &&& p.last() != '/'
    &&& p != seq!['.']
    &&& !has_suffix(p, seq!['/', '.'])
}

/// The name `Path::file_stem` gives for a path: its file name without the extension.
pub uninterp spec fn path_file_stem(p: Seq<char>) -> Option<Seq<char>>;

/// Calls `std::path::Path::extension` on `path`; the result is named [`path_extension`].
/// As documented, an extension is the part of the file name after its last `.`; so where
/// the path's text ends with the file name, it ends with `.` and the extension, and the
/// extension holds no `.`.
#[verifier::external_body]
fn extension_of(path: &str) -> (r: Option<String>)
    ensures
        opt_text(r) == path_extension(path@),
        r matches Some(e) ==> (ends_in_file_name(path@) ==> has_suffix(path@, seq!['.'] + e@)
            && !e@.contains('.')),
{
    std::path::Path::new(path).extension().map(|e| e.to_string_lossy().to_string())
}

/// Calls `std::path::Path::file_stem` on `path`; the result is named [`path_file_stem`].
#[verifier::external_body]
fn file_stem_of(path: &str) -> (r: Option<String>)
    ensures
        opt_text(r) == path_file_stem(path@),
{
    std::path::Path::new(path).file_stem().map(|e| e.to_string_lossy().to_string())
}

/// How deep the scan goes below a scanned directory into plain folders.
pub const MAX_DEPTH: u8 = 1;

/// What the scan does with one directory entry.
#[derive(Clone, Copy, Debug, PartialEq, Eq)]
pub enum ScanStep {
    /// An application bundle: make an entry of it (never descend into it).
    App,
    /// A plain folder above the depth limit: scan inside it.
    Descend,
    /// Anything else.
    Skip,
}

/// Decides what to do with the directory entry at `path`, found at `depth` (0 for the
/// entries of a scanned directory itself); `is_dir` tells whether it is a directory.
pub fn classify_entry(path: &str, is_dir: bool, depth: u8) -> (r: ScanStep)
    ensures
        r == (if path_extension(path@) == Some("app"@) {
            ScanStep::App
        } else if depth < MAX_DEPTH && is_dir {
            ScanStep::Descend
        } else {
            ScanStep::Skip
        }),
        r == ScanStep::App && ends_in_file_name(path@) ==> has_suffix(path@, ".app"@),
{
    proof {
        reveal_strlit("app");
        reveal_strlit(".app");
    }
    let ext = extension_of(path);
    let is_app = match &ext {
        Some(e) => same_text(e.as_str(), "app"),
        None => false,
    };
    assert(seq!['.'] + "app"@ =~= ".app"@);
    if is_app {
        ScanStep::App
    } else if depth < MAX_DEPTH && is_dir {
        ScanStep::Descend
    } else {
        ScanStep::Skip
    }
}

// ---------- Info.plist ----------

/// The name for what the `plist` crate reads from a property-list document: `None`
/// unless it parses and its root is a dictionary; otherwise the dictionary's entries in
/// order, each key with its value when that value is a string (`None` for any other kind
/// of value).
pub uninterp spec fn plist_dictionary(bytes: Seq<u8>) -> Option<Seq<(Seq<char>, Option<Seq<char>>)>>;

/// The values of a list of plist entries.
pub open spec fn plist_view(v: Seq<(String, Option<String>)>) -> Seq<(Seq<char>, Option<Seq<char>>)> {
    v.map_values(|e: (String, Option<String>)| (e.0@, opt_text(e.1)))
}

/// Calls `plist::Value::from_reader` on the bytes, then `as_dictionary`, and lists the
/// dictionary's entries with `as_string` applied to each value. The result is named
/// [`plist_dictionary`]; its keys are distinct, since the crate keeps them in an
/// `IndexMap`.
#[verifier::external_body]
fn read_plist_dictionary(bytes: &[u8]) -> (r: Option<Vec<(String, Option<String>)>>)
    ensures
        r.is_some() == plist_dictionary(bytes@).is_some(),
        r matches Some(v) ==> plist_view(v@) == plist_dictionary(bytes@).unwrap(),
        r matches Some(v) ==> forall|i: int, j: int|
            0 <= i < j < v@.len() ==> (#[trigger] v@[i]).0@ != (#[trigger] v@[j]).0@,
{
    let value = plist::Value::from_reader(std::io::Cursor::new(bytes)).ok()?;
    let dict = value.as_dictionary()?;
    Some(dict.iter().map(|(k, v)| (k.clone(), v.as_string().map(|s| s.to_string()))).collect())
}

/// The value stored under `key`: `None` when the key is absent, `Some(None)` when its
/// value is not a string.
pub open spec fn plist_lookup(
    entries: Seq<(Seq<char>, Option<Seq<char>>)>,
    key: Seq<char>,
) -> Option<Option<Seq<char>>>
    decreases entries.len(),
{
    if entries.len() == 0 {
        None
    } else if entries[0].0 == key {
        Some(entries[0].1)
    } else {
        plist_lookup(entries.drop_first(), key)
    }
}

/// `CFBundleDisplayName`, or `CFBundleName` when the former is absent, if a string; and
/// `CFBundleIdentifier` if a string.
pub open spec fn info_fields(entries: Seq<(Seq<char>, Option<Seq<char>>)>) -> (
    Option<Seq<char>>,
    Option<Seq<char>>,
) {
    let name = match plist_lookup(entries, "CFBundleDisplayName"@) {
        Some(v) => v,
        None => match plist_lookup(entries, "CFBundleName"@) {
            Some(v) => v,
            None => None,
        },
    };
    let id = match plist_lookup(entries, "CFBundleIdentifier"@) {
        Some(v) => v,
        None => None,
    };
    (name, id)
}

/// The (display name, bundle id) an `Info.plist` document gives.
pub open spec fn info_plist_fields(bytes: Seq<u8>) -> Option<(Option<Seq<char>>, Option<Seq<char>>)> {
    match plist_dictionary(bytes) {
        Some(entries) => Some(info_fields(entries)),
        None => None,
    }
}

/// Looks `key` up among plist entries.
fn lookup(entries: &Vec<(String, Option<String>)>, key: &str) -> (r: Option<Option<String>>)
    ensures
        match r {
            Some(v) => plist_lookup(plist_view(entries@), key@) == Some(opt_text(v)),
            None => plist_lookup(plist_view(entries@), key@).is_none(),
        },
{
    let ghost pv = plist_view(entries@);
    let mut i: usize = 0;
    assert(pv.subrange(0, pv.len() as int) =~= pv);
    while i < entries.len()
        invariant
            pv == plist_view(entries@),
            i <= entries.len(),
            plist_lookup(pv, key@) == plist_lookup(pv.subrange(i as int, pv.len() as int), key@),
        decreases entries.len() - i,
    {
        let ghost rest = pv.subrange(i as int, pv.len() as int);
        assert(rest[0] == pv[i as int]);
        if same_text(entries[i].0.as_str(), key) {
            let v = match &entries[i].1 {
                Some(t) => Some(t.clone()),
                None => None,
            };
            return Some(v);
        }
        assert(rest.drop_first() =~= pv.subrange(i + 1, pv.len() as int));
        i = i + 1;
    }
    None
}

/// Reads (display name, bundle id) from the bytes of an app's `Contents/Info.plist`:
/// the name is `CFBundleDisplayName`, else `CFBundleName`; `None` when the document is not
/// a property-list dictionary.
pub fn read_info_plist(bytes: &[u8]) -> (r: Option<(Option<String>, Option<String>)>)
    ensures
        match r {
            Some((n, b)) => info_plist_fields(bytes@) == Some((opt_text(n), opt_text(b))),
            None => info_plist_fields(bytes@).is_none(),
        },
{
    proof {
        reveal_strlit("CFBundleDisplayName");
        reveal_strlit("CFBundleName");
        reveal_strlit("CFBundleIdentifier");
    }
    let entries = match read_plist_dictionary(bytes) {
        Some(e) => e,
        None => return None,
    };
    let name = match lookup(&entries, "CFBundleDisplayName") {
        Some(v) => v,
        None => match lookup(&entries, "CFBundleName") {
            Some(v) => v,
            None => None,
        },
    };
    let id = match lookup(&entries, "CFBundleIdentifier") {
        Some(v) => v,
        None => None,
    };
    Some((name, id))
}

/// The display name an entry gets: the plist name unless it is missing or blank, else
/// the bundle's file stem.
pub open spec fn display_name(plist_name: Option<Seq<char>>, stem: Seq<char>) -> Seq<char> {
    match plist_name {
        Some(n) => if is_blank(n) { stem } else { n },
        None => stem,
    }
}

/// The fields an entry is made of, for the bundle at `path` whose `Info.plist` bytes are
/// `info` (`None` when the file could not be read).
pub open spec fn entry_fields(info: Option<Seq<u8>>) -> (Option<Seq<char>>, Option<Seq<char>>) {
    match info {
        Some(b) => match info_plist_fields(b) {
            Some(f) => f,
            None => (None, None),
        },
        None => (None, None),
    }
}

/// Builds the entry for the `.app` bundle at `app_path`, given the bytes of its
/// `Contents/Info.plist` (`None` when the file could not be read). `None` when the path
/// has no file stem.
pub fn make_entry(app_path: &str, info_plist: Option<&[u8]>) -> (r: Option<AppEntry>)
    ensures
        match path_file_stem(app_path@) {
            None => r.is_none(),
            Some(stem) => r matches Some(e) && e@ == (AppEntryView {
                name: display_name(entry_fields(
                    match info_plist { Some(b) => Some(b@), None => None },
                ).0, stem),
                path: app_path@,
                bundle_id: entry_fields(match info_plist { Some(b) => Some(b@), None => None }).1,
            }),
        },
{
    let stem = match file_stem_of(app_path) {
        Some(s) => s,
        None => return None,
    };
    let (name, bundle_id) = match info_plist {
        Some(b) => match read_info_plist(b) {
            Some(f) => f,
            None => (None, None),
        },
        None => (None, None),
    };
    let name = match name {
        Some(n) => if blank(n.as_str()) { stem } else { n },
        None => stem,
    };
    Some(AppEntry { name, path: String::from_str(app_path), bundle_id })
}

// ---------- scanned locations ----------

/// The marker of a sandbox container in a home directory path.
pub open spec fn container_marker() -> Seq<char> {
    "/Library/Containers/"@
}

/// The standard application folders, in scan order.
pub open spec fn standard_dirs() -> Seq<Seq<char>> {
    seq!["/Applications"@, "/Applications/Utilities"@, "/System/Applications"@, "/System/Applications/Utilities"@]
}

/// The values of a list of texts.
pub open spec fn texts(v: Seq<String>) -> Seq<Seq<char>> {
    v.map_values(|s: String| s@)
}

/// The directories scanned: the standard folders, then `~/Applications` when `home` is
/// set and is not a sandbox container, then the extra (user-granted) folders.
pub open spec fn scan_dirs(home: Option<Seq<char>>, extra: Seq<Seq<char>>) -> Seq<Seq<char>> {
    let user = match home {
        Some(h) => if contains_text(h, container_marker()) {
            Seq::<Seq<char>>::empty()
        } else {
            seq![joined(h, "Applications"@)]
        },
        None => Seq::<Seq<char>>::empty(),
    };
    standard_dirs() + user + extra
}

/// The full set of directories to scan, given the `HOME` directory (if set) and the
/// user-granted folders.
pub fn dirs_to_scan(home: Option<&str>, extra_dirs: &Vec<String>) -> (r: Vec<String>)
    ensures
        texts(r@) == scan_dirs(match home { Some(h) => Some(h@), None => None }, texts(extra_dirs@)),
{
    proof {
        reveal_strlit("/Applications");
        reveal_strlit("/Applications/Utilities");
        reveal_strlit("/System/Applications");
        reveal_strlit("/System/Applications/Utilities");
        reveal_strlit("/Library/Containers/");
        reveal_strlit("Applications");
    }
    let mut dirs: Vec<String> = Vec::new();
    dirs.push(String::from_str("/Applications"));
    dirs.push(String::from_str("/Applications/Utilities"));
    dirs.push(String::from_str("/System/Applications"));
    dirs.push(String::from_str("/System/Applications/Utilities"));
    let ghost first = texts(dirs@);
    assert(first =~= standard_dirs());
    if let Some(h) = home {
        if find_text(h, "/Library/Containers/").is_none() {
            dirs.push(join_component(h, "Applications"));
        }
    }
    let ghost mid = texts(dirs@);
    let mut i: usize = 0;
    while i < extra_dirs.len()
        invariant
            i <= extra_dirs.len(),
            texts(dirs@) == mid + texts(extra_dirs@).take(i as int),
        decreases extra_dirs.len() - i,
    {
        let ghost before = dirs@;
        dirs.push(extra_dirs[i].clone());
        assert(dirs@ == before.push(extra_dirs@[i as int]));
        assert(texts(dirs@) =~= texts(before).push(extra_dirs@[i as int]@));
        assert(texts(extra_dirs@).take(i + 1) =~= texts(extra_dirs@).take(i as int).push(extra_dirs@[i as int]@));
        assert(texts(dirs@) =~= mid + texts(extra_dirs@).take(i + 1));
        i = i + 1;
    }
    assert(texts(extra_dirs@).take(extra_dirs@.len() as int) =~= texts(extra_dirs@));
    assert(texts(dirs@) =~= scan_dirs(match home { Some(h) => Some(h@), None => None }, texts(extra_dirs@)));
    dirs
}

} // verus!
