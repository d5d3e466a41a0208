use vstd::prelude::*;
use crate::banner::{weekday_number, weekday_number_spec, Banner, BannerView};

verus! {

/// The values of a sequence of banners.
pub open spec fn banner_views(v: Seq<Banner>) -> Seq<BannerView> {
    v.map_values(|b: Banner| b@)
}

/// Filtering a prefix one element longer adds at most that element.
pub proof fn lemma_filter_prefix_step<A>(s: Seq<A>, p: spec_fn(A) -> bool, i: int)
    requires
        0 <= i < s.len(),
    ensures
        s.subrange(0, i + 1).filter(p) == (if p(s[i]) {
            s.subrange(0, i).filter(p).push(s[i])
        } else {
            s.subrange(0, i).filter(p)
        }),
{
    reveal(Seq::filter);
    assert(s.subrange(0, i + 1).drop_last() =~= s.subrange(0, i));
}

/// A relation that holds of every ordered pair of `s` holds of every ordered
/// pair of what a filter keeps of it.
pub proof fn lemma_filter_keeps_pairs<A>(s: Seq<A>, p: spec_fn(A) -> bool, r: spec_fn(A, A) -> bool)
    requires
        forall|i: int, j: int| 0 <= i < j < s.len() ==> r(s[i], s[j]),
    ensures
        forall|i: int, j: int|
            0 <= i < j < s.filter(p).len() ==> r(s.filter(p)[i], s.filter(p)[j]),
    decreases s.len(),
{
    reveal(Seq::filter);
    if s.len() > 0 {
        let rest = s.drop_last();
        lemma_filter_keeps_pairs(rest, p, r);
        let f = rest.filter(p);
        if p(s.last()) {
            let g = s.filter(p);
            assert(g == f.push(s.last()));
            assert forall|i: int, j: int| 0 <= i < j < g.len() implies r(g[i], g[j]) by {
                if j == g.len() - 1 {
                    assert(f.contains(f[i]));
                    rest.lemma_filter_contains_rev(p, f[i]);
                    let k = choose|k: int| 0 <= k < rest.len() && rest[k] == f[i];
                    assert(s[k] == f[i]);
                    assert(r(s[k], s[s.len() - 1]));
                } else {
                    assert(g[i] == f[i] && g[j] == f[j]);
                }
            }
        }
    }
}

/// A property of every element of `s` holds of every element that a filter keeps.
pub proof fn lemma_filter_keeps_all<A>(s: Seq<A>, p: spec_fn(A) -> bool, q: spec_fn(A) -> bool)
    requires
        forall|i: int| 0 <= i < s.len() ==> q(s[i]),
    ensures
        forall|i: int| 0 <= i < s.filter(p).len() ==> q(s.filter(p)[i]),
{
    assert forall|i: int| 0 <= i < s.filter(p).len() implies q(s.filter(p)[i]) by {
        let x = s.filter(p)[i];
        assert(s.filter(p).contains(x));
        s.lemma_filter_contains_rev(p, x);
    }
}

/// Rows `[index * size, index * size + size)` of `s`, cut at its end.
pub open spec fn page_spec<A>(s: Seq<A>, size: int, index: int) -> Seq<A> {
    let start = if index * size < s.len() { index * size } else { s.len() as int };
    let end = if start + size < s.len() { start + size } else { s.len() as int };
    s.subrange(start, end)
}

/// A page past the end of the rows is empty.
pub proof fn lemma_page_past_end<A>(s: Seq<A>, size: nat, index: nat)
    requires
        index * size >= s.len(),
    ensures
        page_spec(s, size as int, index as int).len() == 0,
{
}

/// The page of `size` rows numbered `index` (from 0) of `items`.
pub fn page_of(items: &Vec<Banner>, size: usize, index: usize) -> (r: Vec<Banner>)
    ensures
        banner_views(r@) == page_spec(banner_views(items@), size as int, index as int),
{
    let len = items.len();
    let start: usize = match index.checked_mul(size) {
        Some(p) => if p < len { p } else { len },
        None => len,
    };
    let end: usize = if size < len - start { start + size } else { len };
    let ghost sv = banner_views(items@);
    assert(start as int == (if index * size < sv.len() { index * size } else { sv.len() as int }));
    let mut r: Vec<Banner> = Vec::new();
    let mut i: usize = start;
    while i < end
        invariant
            start <= i <= end <= len == items@.len() == sv.len(),
            sv == banner_views(items@),
            banner_views(r@) == sv.subrange(start as int, i as int),
        decreases end - i,
    {
        let b = items[i].duplicate();
        let ghost prev = r@;
        assert(b@ == sv[i as int]);
        r.push(b);
        assert(r@ == prev.push(b));
        assert(banner_views(r@) =~= banner_views(prev).push(b@));
        i = i + 1;
        assert(banner_views(r@) =~= sv.subrange(start as int, i as int));
    }
    r
}

/// Code point of `c`, with ASCII capitals taken as small letters.
pub open spec fn fold_ascii(c: char) -> u32 {
    if 65 <= (c as u32) && (c as u32) <= 90 {
        (c as u32 + 32) as u32
    } else {
        c as u32
    }
}

/// Whether `q` occurs in `t` at position `k`, ignoring ASCII case.
pub open spec fn occurs_at(q: Seq<char>, t: Seq<char>, k: int) -> bool {
    forall|j: int| 0 <= j < q.len() ==> fold_ascii(#[trigger] t[k + j]) == fold_ascii(q[j])
}

/// Whether `q` occurs somewhere in `t`, ignoring ASCII case.
pub open spec fn title_matches_spec(q: Seq<char>, t: Seq<char>) -> bool {
    exists|k: int| 0 <= k && k + q.len() <= t.len() && #[trigger] occurs_at(q, t, k)
}

fn fold_char(c: char) -> (r: u32)
    ensures
        r == fold_ascii(c),
{
    let x = c as u32;
    if 65 <= x && x <= 90 {
        x + 32
    } else {
        x
    }
}

/// The characters of a text.
pub fn chars_of(s: &str) -> (r: Vec<char>)
    ensures
        r@ == s@,
{
    let n = s.unicode_len();
    let mut r: Vec<char> = Vec::with_capacity(n);
    let mut i: usize = 0;
    while i < n
        invariant
            n == s@.len(),
            i <= n,
            r@ == s@.subrange(0, i as int),
        decreases n - i,
    {
        r.push(s.get_char(i));
        i = i + 1;
        assert(r@ =~= s@.subrange(0, i as int));
    }
    assert(r@ =~= s@);
    r
}

fn occurs_here(q: &Vec<char>, t: &Vec<char>, k: usize) -> (r: bool)
    requires
        k + q@.len() <= t@.len(),
    ensures
        r == occurs_at(q@, t@, k as int),
{
    let tl = t.len();
    let mut j: usize = 0;
    while j < q.len()
        invariant
            k + q@.len() <= t@.len(),
            tl == t@.len(),
            j <= q@.len(),
            forall|j0: int| 0 <= j0 < j ==> fold_ascii(#[trigger] t@[k + j0]) == fold_ascii(q@[j0]),
        decreases q@.len() - j,
    {
        if fold_char(t[k + j]) != fold_char(q[j]) {
            assert(fold_ascii(t@[k + j]) != fold_ascii(q@[j as int]));
            return false;
        }
        j = j + 1;
    }
    true
}

/// Whether `query` occurs in `title`, ignoring ASCII case; an empty query
/// occurs in every title.
pub fn title_matches(query: &str, title: &str) -> (r: bool)
    ensures
        r == title_matches_spec(query@, title@),
{
    let q = chars_of(query);
    let t = chars_of(title);
    if q.len() > t.len() {
        return false;
    }
    let last = t.len() - q.len();
    let mut k: usize = 0;
    loop
        invariant
            q@ == query@,
            t@ == title@,
            last == t@.len() - q@.len(),
            k <= last,
            forall|k0: int| 0 <= k0 < k ==> !occurs_at(q@, t@, k0),
        ensures
            forall|k0: int| 0 <= k0 <= last ==> !occurs_at(q@, t@, k0),
        decreases last - k,
    {
        if occurs_here(&q, &t, k) {
            return true;
        }
        if k == last {
            break;
        }
        k = k + 1;
    }
    assert forall|k0: int| 0 <= k0 && k0 + q@.len() <= t@.len() implies !occurs_at(q@, t@, k0) by {}
    false
}

pub open spec fn title_has(q: Seq<char>) -> spec_fn(BannerView) -> bool {
    |b: BannerView| title_matches_spec(q, b.title)
}

/// The banners of `items` whose title holds `query`, ignoring ASCII case, in order.
pub fn matching_titles(items: &Vec<Banner>, query: &str) -> (r: Vec<Banner>)
    ensures
        banner_views(r@) == banner_views(items@).filter(title_has(query@)),
{
    let ghost sv = banner_views(items@);
    let ghost p = title_has(query@);
    let mut r: Vec<Banner> = Vec::new();
    let mut i: usize = 0;
    while i < items.len()
        invariant
            i <= items@.len() == sv.len(),
            sv == banner_views(items@),
            p == title_has(query@),
            banner_views(r@) == sv.subrange(0, i as int).filter(p),
        decreases items@.len() - i,
    {
        proof {
            lemma_filter_prefix_step(sv, p, i as int);
        }
        assert(sv[i as int] == items@[i as int]@);
        let ghost prev = r@;
        if title_matches(query, items[i].title.as_str()) {
            let b = items[i].duplicate();
            r.push(b);
            assert(banner_views(r@) =~= banner_views(prev).push(b@));
        }
        i = i + 1;
    }
    assert(sv.subrange(0, i as int) =~= sv);
    r
}

/// Place of a release day in the week that starts on `today`: 0 for today,
/// 1 for tomorrow, up to 6 for yesterday; -1, ahead of all, for a text that
/// names no weekday.
pub open spec fn release_rank_spec(day: Seq<char>, today: int) -> int {
    match weekday_number_spec(day) {
        Some(d) => (d - today + 7) % 7,
        None => -1,
    }
}

/// Place of the weekday `day` in the week that starts on weekday `today`.
pub fn release_rank(day: &str, today: u8) -> (r: i8)
    requires
        today < 7,
    ensures
        r as int == release_rank_spec(day@, today as int),
{
    match weekday_number(day) {
        Some(d) => ((d + 7 - today) % 7) as i8,
        None => -1,
    }
}

pub open spec fn has_rank(today: int, rank: int) -> spec_fn(BannerView) -> bool {
    |b: BannerView| release_rank_spec(b.release_day, today) == rank
}

/// The banners of ranks below `rank`, grouped by rank in ascending order,
/// each group in the order of `s`.
pub open spec fn ranked_below(s: Seq<BannerView>, today: int, rank: int) -> Seq<BannerView>
    decreases rank + 1,
{
    if rank <= -1 {
        Seq::empty()
    } else {
        ranked_below(s, today, rank - 1) + s.filter(has_rank(today, rank - 1))
    }
}

/// `s` ordered by release rank; rows of equal rank keep their order.
pub open spec fn by_release_rank(s: Seq<BannerView>, today: int) -> Seq<BannerView> {
    ranked_below(s, today, 7)
}

/// `items` ordered by how soon each releases after weekday `today`.
pub fn order_by_release_day(items: &Vec<Banner>, today: u8) -> (r: Vec<Banner>)
    requires
        today < 7,
    ensures
        banner_views(r@) == by_release_rank(banner_views(items@), today as int),
{
    let ghost sv = banner_views(items@);
    let mut r: Vec<Banner> = Vec::new();
    let mut rank: i8 = -1;
    while rank < 7
        invariant
            -1 <= rank <= 7,
            today < 7,
            sv == banner_views(items@),
            banner_views(r@) == ranked_below(sv, today as int, rank as int),
        decreases 7 - rank,
    {
        let mut i: usize = 0;
        let ghost before = banner_views(r@);
        assert(sv.subrange(0, 0).filter(has_rank(today as int, rank as int)) =~= Seq::empty()) by {
            reveal(Seq::filter);
        }
        while i < items.len()
            invariant
                -1 <= rank < 7,
                today < 7,
                i <= items@.len() == sv.len(),
                sv == banner_views(items@),
                before == ranked_below(sv, today as int, rank as int),
                banner_views(r@) == before + sv.subrange(0, i as int).filter(
                    has_rank(today as int, rank as int),
                ),
            decreases items@.len() - i,
        {
            proof {
                lemma_filter_prefix_step(sv, has_rank(today as int, rank as int), i as int);
            }
            let ghost prev = r@;
            assert(sv[i as int] == items@[i as int]@);
            if release_rank(items[i].release_day.as_str(), today) == rank {
                let b = items[i].duplicate();
                r.push(b);
                assert(r@ == prev.push(b));
                assert(banner_views(r@) =~= banner_views(prev).push(sv[i as int]));
            }
            i = i + 1;
            assert(banner_views(r@) =~= before + sv.subrange(0, i as int).filter(
                has_rank(today as int, rank as int),
            ));
        }
        assert(sv.subrange(0, i as int) =~= sv);
        rank = rank + 1;
    }
    r
}

} // verus!
