use vstd::prelude::*;
use crate::account::{AccountView, LoginView, Role, StoreError};
use crate::audit::AuditAction;
use crate::banner::BannerView;
use crate::listing::{by_release_rank, has_rank, ranked_below, release_rank_spec};
use crate::listing::lemma_filter_keeps_pairs;
use crate::monitor::{
    distinct_spec, is_text, lemma_add_missing_contains, lemma_add_missing_no_duplicates,
    lemma_add_missing_present, lemma_distinct_contains, lemma_distinct_no_duplicates, occurrences_spec,
    reaches, SUSPICIOUS_ACTION_COUNT,
};
use crate::repo::{
    account_named, add_outcome, add_spec, change_outcome, delete_spec, entry_spec, has_account,
    has_banner, login_spec, other_key, register_spec, repo_wf, same_key, tick_spec, tick_suspects,
    window_users, RepoView,
};

verus! {

/// Registering a name a second time reports that it is taken and changes
/// nothing: the password and role of the first registration stay.
pub proof fn lemma_register_twice(
    m: RepoView,
    name: Seq<char>,
    secret: Seq<char>,
    role: Role,
    secret2: Seq<char>,
    role2: Role,
)
    requires
        !has_account(m.accounts, name),
    ensures
        has_account(register_spec(m, name, secret, role).accounts, name),
        register_spec(register_spec(m, name, secret, role), name, secret2, role2) == register_spec(
            m,
            name,
            secret,
            role,
        ),
{
    let m1 = register_spec(m, name, secret, role);
    assert(m1.accounts[m.accounts.len() as int].user_name == name);
}

/// After registration, the account named `name` is the one registered.
proof fn lemma_registered_account(m: RepoView, name: Seq<char>, secret: Seq<char>, role: Role)
    requires
        repo_wf(m),
        !has_account(m.accounts, name),
    ensures
        account_named(register_spec(m, name, secret, role).accounts, name) == (AccountView {
            user_name: name,
            password: secret,
            role,
        }),
{
    let accs = register_spec(m, name, secret, role).accounts;
    let last = m.accounts.len() as int;
    assert(accs[last].user_name == name);
    let k = choose|k: int| 0 <= k < accs.len() && #[trigger] accs[k].user_name == name;
    if k < last {
        assert(m.accounts[k].user_name == name);
    }
}

/// Logging in with the registered password gives the registered role; with
/// another password it fails as an invalid password.
pub proof fn lemma_login_after_register(
    m: RepoView,
    name: Seq<char>,
    secret: Seq<char>,
    wrong: Seq<char>,
    role: Role,
)
    requires
        repo_wf(m),
        !has_account(m.accounts, name),
        wrong != secret,
    ensures
        login_spec(register_spec(m, name, secret, role), name, secret) == (match role {
            Role::Admin => LoginView::Admin,
            Role::User => LoginView::User,
        }),
        login_spec(register_spec(m, name, secret, role), name, wrong) == LoginView::Fail(
            "invalid password"@,
        ),
{
    lemma_register_twice(m, name, secret, role, secret, role);
    lemma_registered_account(m, name, secret, role);
}

/// Logging in with a name that is not registered fails as an unknown user.
pub proof fn lemma_login_unknown(m: RepoView, name: Seq<char>, password: Seq<char>)
    requires
        !has_account(m.accounts, name),
    ensures
        login_spec(m, name, password) == LoginView::Fail("user not found"@),
{
}

/// Titles are scoped by owner: two registered accounts that both lack a title
/// can each add a banner of that title.
pub proof fn lemma_same_title_two_owners(
    m: RepoView,
    owner1: Seq<char>,
    owner2: Seq<char>,
    b: BannerView,
    timestamp: Seq<char>,
)
    requires
        has_account(m.accounts, owner1),
        has_account(m.accounts, owner2),
        owner1 != owner2,
        !has_banner(m.banners, owner1, b.title),
        !has_banner(m.banners, owner2, b.title),
    ensures
        add_outcome(m, owner1, b.title) == Ok::<(), StoreError>(()),
        add_outcome(add_spec(m, owner1, b, timestamp), owner2, b.title) == Ok::<(), StoreError>(()),
{
    let m1 = add_spec(m, owner1, b, timestamp);
    assert(!has_banner(m1.banners, owner2, b.title)) by {
        if has_banner(m1.banners, owner2, b.title) {
            let k = choose|k: int| 0 <= k < m1.banners.len() && same_key(#[trigger] m1.banners[k], owner2, b.title);
            if k < m.banners.len() {
                assert(same_key(m.banners[k], owner2, b.title));
            }
        }
    }
}

/// Deleting a banner that does not exist succeeds, keeps every banner and
/// still records the deletion.
pub proof fn lemma_delete_missing(m: RepoView, owner: Seq<char>, title: Seq<char>, timestamp: Seq<char>)
    requires
        has_account(m.accounts, owner),
        !has_banner(m.banners, owner, title),
    ensures
        change_outcome(m, owner) == Ok::<(), StoreError>(()),
        delete_spec(m, owner, title, timestamp).banners == m.banners,
        delete_spec(m, owner, title, timestamp).logs == m.logs.push(
            entry_spec(owner, AuditAction::Delete, timestamp),
        ),
{
    lemma_filter_all_kept(m.banners, other_key(owner, title));
}

proof fn lemma_filter_all_kept<A>(s: Seq<A>, p: spec_fn(A) -> bool)
    requires
        forall|i: int| 0 <= i < s.len() ==> p(#[trigger] s[i]),
    ensures
        s.filter(p) == s,
    decreases s.len(),
{
    reveal(Seq::filter);
    if s.len() > 0 {
        let rest = s.drop_last();
        assert forall|i: int| 0 <= i < rest.len() implies p(#[trigger] rest[i]) by {
            assert(rest[i] == s[i]);
        }
        lemma_filter_all_kept(rest, p);
        assert(p(s[s.len() - 1]));
        assert(s == rest.push(s.last()));
    }
}

/// The grouped order holds only ranks below `rank`, in ascending order.
proof fn lemma_ranked_below_sorted(s: Seq<BannerView>, today: int, rank: int)
    ensures
        forall|i: int| 0 <= i < ranked_below(s, today, rank).len() ==> release_rank_spec(
            #[trigger] ranked_below(s, today, rank)[i].release_day,
            today,
        ) < rank,
        forall|i: int, j: int|
            0 <= i < j < ranked_below(s, today, rank).len() ==> release_rank_spec(
                #[trigger] ranked_below(s, today, rank)[i].release_day,
                today,
            ) <= release_rank_spec(#[trigger] ranked_below(s, today, rank)[j].release_day, today),
    decreases rank + 1,
{
    if rank > -1 {
        lemma_ranked_below_sorted(s, today, rank - 1);
        let a = ranked_below(s, today, rank - 1);
        let p = has_rank(today, rank - 1);
        let b = s.filter(p);
        let c = ranked_below(s, today, rank);
        assert(c == a + b);
        assert forall|i: int| 0 <= i < b.len() implies release_rank_spec(#[trigger] b[i].release_day, today)
            == rank - 1 by {
            s.lemma_filter_pred(p, i);
        }
        assert forall|i: int| 0 <= i < c.len() implies release_rank_spec(
            #[trigger] c[i].release_day,
            today,
        ) < rank by {
            if i >= a.len() {
                assert(c[i] == b[i - a.len()]);
            } else {
                assert(c[i] == a[i]);
            }
        }
        assert forall|i: int, j: int| 0 <= i < j < c.len() implies release_rank_spec(
            #[trigger] c[i].release_day,
            today,
        ) <= release_rank_spec(#[trigger] c[j].release_day, today) by {
            if j < a.len() {
                assert(c[i] == a[i] && c[j] == a[j]);
            } else if i < a.len() {
                assert(c[i] == a[i] && c[j] == b[j - a.len()]);
            } else {
                assert(c[i] == b[i - a.len()] && c[j] == b[j - a.len()]);
            }
        }
    }
}

/// Ordering by release day puts banners in ascending order of how many days
/// after `today` they release; text that names no weekday comes first.
pub proof fn lemma_release_order_ascending(s: Seq<BannerView>, today: int)
    ensures
        forall|i: int, j: int|
            0 <= i < j < by_release_rank(s, today).len() ==> release_rank_spec(
                #[trigger] by_release_rank(s, today)[i].release_day,
                today,
            ) <= release_rank_spec(#[trigger] by_release_rank(s, today)[j].release_day, today),
{
    lemma_ranked_below_sorted(s, today, 7);
}

/// A sweep reports exactly the accounts with at least `SUSPICIOUS_ACTION_COUNT`
/// audit entries in its window, each once; afterwards each of them is flagged,
/// and no account is flagged twice.
pub proof fn lemma_sweep_reports_busy_accounts(m: RepoView, cutoff: Seq<char>, user: Seq<char>)
    requires
        repo_wf(m),
    ensures
        tick_suspects(m, cutoff).contains(user) == (occurrences_spec(window_users(m.logs, cutoff), user)
            >= SUSPICIOUS_ACTION_COUNT),
        tick_suspects(m, cutoff).no_duplicates(),
        tick_spec(m, cutoff).flagged.contains(user) == (m.flagged.contains(user) || occurrences_spec(
            window_users(m.logs, cutoff),
            user,
        ) >= SUSPICIOUS_ACTION_COUNT),
        tick_spec(m, cutoff).flagged.no_duplicates(),
{
    let w = window_users(m.logs, cutoff);
    let d = distinct_spec(w);
    let p = reaches(w, SUSPICIOUS_ACTION_COUNT as nat);
    let sus = tick_suspects(m, cutoff);
    lemma_distinct_contains(w, user);
    if sus.contains(user) {
        d.lemma_filter_contains_rev(p, user);
        let k = choose|k: int| 0 <= k < sus.len() && sus[k] == user;
        assert(p(sus[k]));
    }
    if occurrences_spec(w, user) >= SUSPICIOUS_ACTION_COUNT {
        let f = w.filter(is_text(user));
        assert(f.contains(f[0]));
        w.lemma_filter_contains_rev(is_text(user), f[0]);
        assert(is_text(user)(f[0])) by {
            w.lemma_filter_pred(is_text(user), 0);
        }
        assert(d.contains(user));
        let k = choose|k: int| 0 <= k < d.len() && d[k] == user;
        d.lemma_filter_contains(p, k);
    }
    lemma_distinct_no_duplicates(w);
    let rel = |x: Seq<char>, y: Seq<char>| x != y;
    assert forall|i: int, j: int| 0 <= i < j < d.len() implies rel(d[i], d[j]) by {}
    lemma_filter_keeps_pairs(d, p, rel);
    assert forall|i: int, j: int| 0 <= i < sus.len() && 0 <= j < sus.len() && i != j implies sus[i] != sus[j] by {
        if i < j {
            assert(rel(sus[i], sus[j]));
        } else {
            assert(rel(sus[j], sus[i]));
        }
    }
    lemma_add_missing_contains(m.flagged, sus, user);
    lemma_add_missing_no_duplicates(m.flagged, sus);
}

/// A second sweep over an unchanged audit log with the same window sees the
/// same entries, reports the same accounts and changes nothing more.
pub proof fn lemma_sweep_idempotent(m: RepoView, cutoff: Seq<char>)
    ensures
        window_users(tick_spec(m, cutoff).logs, cutoff) == window_users(m.logs, cutoff),
        tick_suspects(tick_spec(m, cutoff), cutoff) == tick_suspects(m, cutoff),
        tick_spec(tick_spec(m, cutoff), cutoff) == tick_spec(m, cutoff),
{
    let sus = tick_suspects(m, cutoff);
    let f1 = tick_spec(m, cutoff).flagged;
    assert forall|i: int| 0 <= i < sus.len() implies f1.contains(#[trigger] sus[i]) by {
        lemma_add_missing_contains(m.flagged, sus, sus[i]);
    }
    lemma_add_missing_present(f1, sus);
}

} // verus!
