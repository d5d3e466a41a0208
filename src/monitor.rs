use vstd::prelude::*;
use crate::listing::lemma_filter_prefix_step;

verus! {

/// Actions by one account within one window at which the account is flagged.
pub const SUSPICIOUS_ACTION_COUNT: usize = 10;

/// Width of the monitor's window, and the time between two of its sweeps, in seconds.
pub const MONITOR_INTERVAL_SECONDS: i64 = 10;

/// The values of a sequence of texts.
pub open spec fn text_views(v: Seq<String>) -> Seq<Seq<char>> {
    v.map_values(|s: String| s@)
}

/// The texts of `s`, each once, in the order of their first occurrence.
pub open spec fn distinct_spec(s: Seq<Seq<char>>) -> Seq<Seq<char>>
    decreases s.len(),
{
    if s.len() == 0 {
        Seq::empty()
    } else {
        let d = distinct_spec(s.drop_last());
        if d.contains(s.last()) {
            d
        } else {
            d.push(s.last())
        }
    }
}

pub open spec fn is_text(x: Seq<char>) -> spec_fn(Seq<char>) -> bool {
    |y: Seq<char>| y == x
}

/// How often `x` occurs in `s`.
pub open spec fn occurrences_spec(s: Seq<Seq<char>>, x: Seq<char>) -> nat {
    s.filter(is_text(x)).len()
}

pub open spec fn reaches(s: Seq<Seq<char>>, threshold: nat) -> spec_fn(Seq<char>) -> bool {
    |u: Seq<char>| occurrences_spec(s, u) >= threshold
}

/// The texts that occur at least `threshold` times in `s`, each once, in the
/// order of their first occurrence.
pub open spec fn suspects_spec(s: Seq<Seq<char>>, threshold: nat) -> Seq<Seq<char>> {
    distinct_spec(s).filter(reaches(s, threshold))
}

/// `flagged` with each text of `xs` that it lacks added at its end, in order.
pub open spec fn add_missing(flagged: Seq<Seq<char>>, xs: Seq<Seq<char>>) -> Seq<Seq<char>>
    decreases xs.len(),
{
    if xs.len() == 0 {
        flagged
    } else {
        let f = add_missing(flagged, xs.drop_last());
        if f.contains(xs.last()) {
            f
        } else {
            f.push(xs.last())
        }
    }
}

/// `x` is among the distinct texts of `s` exactly when it occurs in `s`.
pub proof fn lemma_distinct_contains(s: Seq<Seq<char>>, x: Seq<char>)
    ensures
        distinct_spec(s).contains(x) == s.contains(x),
    decreases s.len(),
{
    if s.len() > 0 {
        let rest = s.drop_last();
        lemma_distinct_contains(rest, x);
        lemma_contains_split(s, x);
        let d = distinct_spec(rest);
        if !d.contains(s.last()) {
            lemma_push_contains(d, s.last(), x);
        }
    }
}

/// The distinct texts of `s` hold no text twice.
pub proof fn lemma_distinct_no_duplicates(s: Seq<Seq<char>>)
    ensures
        distinct_spec(s).no_duplicates(),
    decreases s.len(),
{
    if s.len() > 0 {
        lemma_distinct_no_duplicates(s.drop_last());
        let d = distinct_spec(s.drop_last());
        if !d.contains(s.last()) {
            lemma_push_no_duplicates(d, s.last());
        }
    }
}

/// What `add_missing` gives holds exactly the texts of both arguments.
pub proof fn lemma_add_missing_contains(f: Seq<Seq<char>>, xs: Seq<Seq<char>>, x: Seq<char>)
    ensures
        add_missing(f, xs).contains(x) == (f.contains(x) || xs.contains(x)),
    decreases xs.len(),
{
    if xs.len() > 0 {
        lemma_add_missing_contains(f, xs.drop_last(), x);
        lemma_contains_split(xs, x);
        let g = add_missing(f, xs.drop_last());
        if !g.contains(xs.last()) {
            lemma_push_contains(g, xs.last(), x);
        }
    }
}

/// `add_missing` adds no text twice to a sequence without duplicates.
pub proof fn lemma_add_missing_no_duplicates(f: Seq<Seq<char>>, xs: Seq<Seq<char>>)
    requires
        f.no_duplicates(),
    ensures
        add_missing(f, xs).no_duplicates(),
    decreases xs.len(),
{
    if xs.len() > 0 {
        lemma_add_missing_no_duplicates(f, xs.drop_last());
        let g = add_missing(f, xs.drop_last());
        if !g.contains(xs.last()) {
            lemma_push_no_duplicates(g, xs.last());
        }
    }
}

/// `add_missing` changes nothing where every text is already present.
pub proof fn lemma_add_missing_present(f: Seq<Seq<char>>, xs: Seq<Seq<char>>)
    requires
        forall|i: int| 0 <= i < xs.len() ==> f.contains(#[trigger] xs[i]),
    ensures
        add_missing(f, xs) == f,
    decreases xs.len(),
{
    if xs.len() > 0 {
        let rest = xs.drop_last();
        assert forall|i: int| 0 <= i < rest.len() implies f.contains(#[trigger] rest[i]) by {
            assert(rest[i] == xs[i]);
        }
        lemma_add_missing_present(f, rest);
        assert(f.contains(xs[xs.len() - 1]));
    }
}

proof fn lemma_contains_split(s: Seq<Seq<char>>, x: Seq<char>)
    requires
        s.len() > 0,
    ensures
        s.contains(x) == (s.drop_last().contains(x) || s.last() == x),
{
    let rest = s.drop_last();
    if s.contains(x) && s.last() != x {
        let k = choose|k: int| 0 <= k < s.len() && s[k] == x;
        assert(rest[k] == x);
    }
    if rest.contains(x) {
        let k = choose|k: int| 0 <= k < rest.len() && rest[k] == x;
        assert(s[k] == x);
    }
    if s.last() == x {
        assert(s[s.len() - 1] == x);
    }
}

proof fn lemma_push_contains(d: Seq<Seq<char>>, y: Seq<char>, x: Seq<char>)
    ensures
        d.push(y).contains(x) == (d.contains(x) || y == x),
{
    lemma_contains_split(d.push(y), x);
    assert(d.push(y).drop_last() =~= d);
}

proof fn lemma_push_no_duplicates(d: Seq<Seq<char>>, y: Seq<char>)
    requires
        d.no_duplicates(),
        !d.contains(y),
    ensures
        d.push(y).no_duplicates(),
{
    let n = d.push(y);
    assert forall|i: int, j: int| 0 <= i < n.len() && 0 <= j < n.len() && i != j implies n[i] != n[j] by {
        if i == d.len() {
            assert(n[j] == d[j]);
        } else if j == d.len() {
            assert(n[i] == d[i]);
        } else {
            assert(n[i] == d[i] && n[j] == d[j]);
        }
    }
}

proof fn lemma_text_views_push(v: Seq<String>, x: String)
    ensures
        text_views(v.push(x)) == text_views(v).push(x@),
{
    assert(text_views(v.push(x)) =~= text_views(v).push(x@));
}

/// Whether `v` holds the text `x`.
pub fn contains_text(v: &Vec<String>, x: &String) -> (r: bool)
    ensures
        r == text_views(v@).contains(x@),
{
    let mut i: usize = 0;
    while i < v.len()
        invariant
            i <= v@.len(),
            forall|j: int| 0 <= j < i ==> v@[j]@ != x@,
        decreases v@.len() - i,
    {
        if v[i] == *x {
            assert(text_views(v@)[i as int] == x@);
            return true;
        }
        i = i + 1;
    }
    assert(!text_views(v@).contains(x@)) by {
        if text_views(v@).contains(x@) {
            let j = choose|j: int| 0 <= j < text_views(v@).len() && text_views(v@)[j] == x@;
            assert(v@[j]@ == x@);
        }
    }
    false
}

/// The texts of `users`, each once, in the order of their first occurrence.
pub fn distinct_users(users: &Vec<String>) -> (r: Vec<String>)
    ensures
        text_views(r@) == distinct_spec(text_views(users@)),
{
    let ghost s = text_views(users@);
    let mut r: Vec<String> = Vec::new();
    let mut i: usize = 0;
    while i < users.len()
        invariant
            i <= users@.len(),
            s == text_views(users@),
            text_views(r@) == distinct_spec(s.subrange(0, i as int)),
        decreases users@.len() - i,
    {
        assert(s.subrange(0, i + 1).drop_last() =~= s.subrange(0, i as int));
        assert(s.subrange(0, i + 1).last() == users@[i as int]@);
        let ghost prev = r@;
        if !contains_text(&r, &users[i]) {
            r.push(users[i].clone());
            proof {
                lemma_text_views_push(prev, users@[i as int]);
            }
        }
        i = i + 1;
    }
    assert(s.subrange(0, i as int) =~= s);
    r
}

/// How often `x` occurs in `users`.
pub fn occurrences(users: &Vec<String>, x: &String) -> (r: usize)
    ensures
        r == occurrences_spec(text_views(users@), x@),
{
    let ghost s = text_views(users@);
    let mut n: usize = 0;
    let mut i: usize = 0;
    while i < users.len()
        invariant
            i <= users@.len(),
            s == text_views(users@),
            n == s.subrange(0, i as int).filter(is_text(x@)).len(),
            n <= i,
        decreases users@.len() - i,
    {
        proof {
            lemma_filter_prefix_step(s, is_text(x@), i as int);
        }
        if users[i] == *x {
            n = n + 1;
        }
        i = i + 1;
    }
    assert(s.subrange(0, i as int) =~= s);
    n
}

/// The texts that occur at least `threshold` times in `users`, each once, in
/// the order of their first occurrence.
pub fn suspects(users: &Vec<String>, threshold: usize) -> (r: Vec<String>)
    ensures
        text_views(r@) == suspects_spec(text_views(users@), threshold as nat),
{
    let ghost s = text_views(users@);
    let d = distinct_users(users);
    let ghost ds = text_views(d@);
    let mut r: Vec<String> = Vec::new();
    let mut i: usize = 0;
    while i < d.len()
        invariant
            i <= d@.len(),
            s == text_views(users@),
            ds == text_views(d@),
            ds == distinct_spec(s),
            text_views(r@) == ds.subrange(0, i as int).filter(reaches(s, threshold as nat)),
        decreases d@.len() - i,
    {
        proof {
            lemma_filter_prefix_step(ds, reaches(s, threshold as nat), i as int);
        }
        assert(ds[i as int] == d@[i as int]@);
        let ghost prev = r@;
        if occurrences(users, &d[i]) >= threshold {
            r.push(d[i].clone());
            proof {
                lemma_text_views_push(prev, d@[i as int]);
            }
        }
        i = i + 1;
    }
    assert(ds.subrange(0, i as int) =~= ds);
    r
}

/// Adds to `flagged` each text of `xs` that it lacks, in order.
pub fn flag_all(flagged: &mut Vec<String>, xs: &Vec<String>)
    ensures
        text_views(final(flagged)@) == add_missing(text_views(old(flagged)@), text_views(xs@)),
{
    let ghost f0 = text_views(flagged@);
    let ghost xv = text_views(xs@);
    let mut i: usize = 0;
    while i < xs.len()
        invariant
            i <= xs@.len(),
            xv == text_views(xs@),
            text_views(flagged@) == add_missing(f0, xv.subrange(0, i as int)),
        decreases xs@.len() - i,
    {
        assert(xv.subrange(0, i + 1).drop_last() =~= xv.subrange(0, i as int));
        assert(xv.subrange(0, i + 1).last() == xs@[i as int]@);
        let ghost prev = flagged@;
        if !contains_text(flagged, &xs[i]) {
            flagged.push(xs[i].clone());
            proof {
                lemma_text_views_push(prev, xs@[i as int]);
            }
        }
        i = i + 1;
    }
    assert(xv.subrange(0, i as int) =~= xv);
}

} // verus!
