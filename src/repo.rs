use vstd::prelude::*;
use crate::account::{Account, AccountView, LoginResult, LoginView, Role, StoreError};
use crate::audit::{
    clock_now, current_timestamp, format_rfc3339, stamp_at_least, stamp_seconds, EARLIEST_WRITABLE_SECOND, LATEST_WRITABLE_SECOND, rfc3339_of, text_before, weekday_of,
    AuditAction, AuditEntry, AuditEntryView,
};
use crate::monitor::{
    add_missing, distinct_spec, flag_all, lemma_add_missing_contains, lemma_add_missing_no_duplicates,
    lemma_distinct_contains, reaches, suspects, suspects_spec, text_views, MONITOR_INTERVAL_SECONDS,
    SUSPICIOUS_ACTION_COUNT,
};
use crate::banner::{Banner, BannerView};
use crate::listing::{
    banner_views, by_release_rank, lemma_filter_keeps_all, lemma_filter_keeps_pairs,
    lemma_filter_prefix_step, matching_titles, order_by_release_day, page_of, page_spec, title_has,
};

verus! {

/// A banner together with the account that owns it.
#[derive(Clone, Debug)]
pub struct OwnedBanner {
    pub owner: String,
    pub banner: Banner,
}

pub struct OwnedBannerView {
    pub owner: Seq<char>,
    pub banner: BannerView,
}

impl View for OwnedBanner {
    type V = OwnedBannerView;

    open spec fn view(&self) -> OwnedBannerView {
        OwnedBannerView { owner: self.owner@, banner: self.banner@ }
    }
}

impl OwnedBanner {
    /// A copy with the same value.
    pub fn duplicate(&self) -> (r: OwnedBanner)
        ensures
            r@ == self@,
    {
        OwnedBanner { owner: self.owner.clone(), banner: self.banner.duplicate() }
    }
}

/// The catalog store: accounts, their banners, the audit log and the set of
/// flagged accounts.
#[derive(Clone)]
pub struct BannerRepo {
    accounts: Vec<Account>,
    banners: Vec<OwnedBanner>,
    logs: Vec<AuditEntry>,
    flagged: Vec<String>,
}

/// The value of a [`BannerRepo`]: each table in store order.
pub struct RepoView {
    pub accounts: Seq<AccountView>,
    pub banners: Seq<OwnedBannerView>,
    pub logs: Seq<AuditEntryView>,
    pub flagged: Seq<Seq<char>>,
}

pub open spec fn account_views(v: Seq<Account>) -> Seq<AccountView> {
    v.map_values(|a: Account| a@)
}

pub open spec fn owned_views(v: Seq<OwnedBanner>) -> Seq<OwnedBannerView> {
    v.map_values(|b: OwnedBanner| b@)
}

pub open spec fn entry_views(v: Seq<AuditEntry>) -> Seq<AuditEntryView> {
    v.map_values(|e: AuditEntry| e@)
}

impl View for BannerRepo {
    type V = RepoView;

    closed spec fn view(&self) -> RepoView {
        RepoView {
            accounts: account_views(self.accounts@),
            banners: owned_views(self.banners@),
            logs: entry_views(self.logs@),
            flagged: self.flagged@.map_values(|s: String| s@),
        }
    }
}

/// Whether an account named `name` is registered.
pub open spec fn has_account(accounts: Seq<AccountView>, name: Seq<char>) -> bool {
    exists|i: int| 0 <= i < accounts.len() && #[trigger] accounts[i].user_name == name
}

/// The account named `name`, where one is registered.
pub open spec fn account_named(accounts: Seq<AccountView>, name: Seq<char>) -> AccountView {
    accounts[choose|i: int| 0 <= i < accounts.len() && #[trigger] accounts[i].user_name == name]
}

/// Whether `b` is the banner of `owner` titled `title`.
pub open spec fn same_key(b: OwnedBannerView, owner: Seq<char>, title: Seq<char>) -> bool {
    b.owner == owner && b.banner.title == title
}

/// Whether `owner` holds a banner titled `title`.
pub open spec fn has_banner(banners: Seq<OwnedBannerView>, owner: Seq<char>, title: Seq<char>) -> bool {
    exists|i: int| 0 <= i < banners.len() && same_key(#[trigger] banners[i], owner, title)
}

/// The store's invariant: account names are unique; every banner, audit entry
/// and flag names a registered account; an owner holds at most one banner of a
/// title; an account is flagged at most once.
pub open spec fn repo_wf(m: RepoView) -> bool {
    &&& forall|i: int, j: int|
        0 <= i < j < m.accounts.len() ==> m.accounts[i].user_name != m.accounts[j].user_name
    &&& forall|i: int| 0 <= i < m.banners.len() ==> has_account(m.accounts, #[trigger] m.banners[i].owner)
    &&& forall|i: int, j: int|
        0 <= i < j < m.banners.len() ==> !same_key(m.banners[i], m.banners[j].owner, m.banners[j].banner.title)
    &&& forall|i: int| 0 <= i < m.logs.len() ==> has_account(m.accounts, #[trigger] m.logs[i].user_name)
    &&& forall|i: int| 0 <= i < m.flagged.len() ==> has_account(m.accounts, #[trigger] m.flagged[i])
    &&& m.flagged.no_duplicates()
}

/// The store after `register_user(name, password, role)`.
pub open spec fn register_spec(m: RepoView, name: Seq<char>, password: Seq<char>, role: Role) -> RepoView {
    if has_account(m.accounts, name) {
        m
    } else {
        RepoView {
            accounts: m.accounts.push(AccountView { user_name: name, password, role }),
            banners: m.banners,
            logs: m.logs,
            flagged: m.flagged,
        }
    }
}

/// The outcome of `login(name, password)`.
pub open spec fn login_spec(m: RepoView, name: Seq<char>, password: Seq<char>) -> LoginView {
    if !has_account(m.accounts, name) {
        LoginView::Fail("user not found"@)
    } else if account_named(m.accounts, name).password != password {
        LoginView::Fail("invalid password"@)
    } else {
        match account_named(m.accounts, name).role {
            Role::Admin => LoginView::Admin,
            Role::User => LoginView::User,
        }
    }
}

/// The audit entry of `action` by `user` at `timestamp`.
pub open spec fn entry_spec(user: Seq<char>, action: AuditAction, timestamp: Seq<char>) -> AuditEntryView {
    AuditEntryView { user_name: user, action, timestamp }
}

/// The outcome of adding a banner titled `title` for `owner`.
pub open spec fn add_outcome(m: RepoView, owner: Seq<char>, title: Seq<char>) -> Result<(), StoreError> {
    if !has_account(m.accounts, owner) {
        Err(StoreError::UnknownAccount)
    } else if has_banner(m.banners, owner, title) {
        Err(StoreError::Conflict)
    } else {
        Ok(())
    }
}

/// The store after adding `b` for `owner` at `timestamp`.
pub open spec fn add_spec(m: RepoView, owner: Seq<char>, b: BannerView, timestamp: Seq<char>) -> RepoView {
    if add_outcome(m, owner, b.title) is Ok {
        RepoView {
            accounts: m.accounts,
            banners: m.banners.push(OwnedBannerView { owner, banner: b }),
            logs: m.logs.push(entry_spec(owner, AuditAction::Add, timestamp)),
            flagged: m.flagged,
        }
    } else {
        m
    }
}

/// The outcome of a delete or update by `owner`: refused only for an
/// account that is not registered.
pub open spec fn change_outcome(m: RepoView, owner: Seq<char>) -> Result<(), StoreError> {
    if has_account(m.accounts, owner) {
        Ok(())
    } else {
        Err(StoreError::UnknownAccount)
    }
}

pub open spec fn other_key(owner: Seq<char>, title: Seq<char>) -> spec_fn(OwnedBannerView) -> bool {
    |b: OwnedBannerView| !same_key(b, owner, title)
}

/// The store after `owner` deletes the banner titled `title` at `timestamp`.
pub open spec fn delete_spec(m: RepoView, owner: Seq<char>, title: Seq<char>, timestamp: Seq<char>) -> RepoView {
    if has_account(m.accounts, owner) {
        RepoView {
            accounts: m.accounts,
            banners: m.banners.filter(other_key(owner, title)),
            logs: m.logs.push(entry_spec(owner, AuditAction::Delete, timestamp)),
            flagged: m.flagged,
        }
    } else {
        m
    }
}

pub open spec fn owned_pred(owner: Seq<char>) -> spec_fn(OwnedBannerView) -> bool {
    |b: OwnedBannerView| b.owner == owner
}

/// The banners of `owner`, in store order.
pub open spec fn owned_by(banners: Seq<OwnedBannerView>, owner: Seq<char>) -> Seq<BannerView> {
    banners.filter(owned_pred(owner)).map_values(|b: OwnedBannerView| b.banner)
}

/// The page that a search of `owner`'s titles for `query` gives.
pub open spec fn search_spec(m: RepoView, query: Seq<char>, size: int, index: int, owner: Seq<char>) -> Seq<BannerView> {
    page_spec(owned_by(m.banners, owner).filter(title_has(query)), size, index)
}

/// The page of `owner`'s banners ordered by how soon each releases after weekday `today`.
pub open spec fn release_page_spec(m: RepoView, today: int, size: int, index: int, owner: Seq<char>) -> Seq<BannerView> {
    page_spec(by_release_rank(owned_by(m.banners, owner), today), size, index)
}

pub open spec fn in_window(cutoff: Seq<char>) -> spec_fn(AuditEntryView) -> bool {
    |e: AuditEntryView| !text_before(stamp_seconds(e.timestamp), stamp_seconds(cutoff))
}

/// The acting account of each audit entry stamped in the second of `cutoff`
/// or later, in log order.
pub open spec fn window_users(logs: Seq<AuditEntryView>, cutoff: Seq<char>) -> Seq<Seq<char>> {
    logs.filter(in_window(cutoff)).map_values(|e: AuditEntryView| e.user_name)
}

/// The accounts that a sweep with window start `cutoff` reports, each once.
pub open spec fn tick_suspects(m: RepoView, cutoff: Seq<char>) -> Seq<Seq<char>> {
    suspects_spec(window_users(m.logs, cutoff), SUSPICIOUS_ACTION_COUNT as nat)
}

/// The store after a sweep with window start `cutoff`: the reported accounts
/// that were not flagged yet are flagged.
pub open spec fn tick_spec(m: RepoView, cutoff: Seq<char>) -> RepoView {
    RepoView {
        accounts: m.accounts,
        banners: m.banners,
        logs: m.logs,
        flagged: add_missing(m.flagged, tick_suspects(m, cutoff)),
    }
}

/// A mutable field of a banner with its new value.
#[derive(Clone, Debug)]
pub enum BannerField {
    CurrentEpisodes(u32),
    TotalEpisodes(u32),
    ReleaseDay(String),
    ReleaseTime(String),
}

pub enum FieldView {
    CurrentEpisodes(u32),
    TotalEpisodes(u32),
    ReleaseDay(Seq<char>),
    ReleaseTime(Seq<char>),
}

impl View for BannerField {
    type V = FieldView;

    open spec fn view(&self) -> FieldView {
        match self {
            BannerField::CurrentEpisodes(n) => FieldView::CurrentEpisodes(*n),
            BannerField::TotalEpisodes(n) => FieldView::TotalEpisodes(*n),
            BannerField::ReleaseDay(d) => FieldView::ReleaseDay(d@),
            BannerField::ReleaseTime(t) => FieldView::ReleaseTime(t@),
        }
    }
}

/// `b` with the field of `f` set to its value.
pub open spec fn apply_field(b: BannerView, f: FieldView) -> BannerView {
    match f {
        FieldView::CurrentEpisodes(n) => BannerView { current_episodes: n, ..b },
        FieldView::TotalEpisodes(n) => BannerView { total_episodes: n, ..b },
        FieldView::ReleaseDay(d) => BannerView { release_day: d, ..b },
        FieldView::ReleaseTime(t) => BannerView { release_time: t, ..b },
    }
}

/// The audit action that records an update of the field of `f`.
pub open spec fn field_action(f: FieldView) -> AuditAction {
    match f {
        FieldView::CurrentEpisodes(_) => AuditAction::UpdateCurrentEpisodes,
        FieldView::TotalEpisodes(_) => AuditAction::UpdateTotalEpisodes,
        FieldView::ReleaseDay(_) => AuditAction::UpdateReleaseDay,
        FieldView::ReleaseTime(_) => AuditAction::UpdateReleaseTime,
    }
}

pub open spec fn update_one(owner: Seq<char>, title: Seq<char>, f: FieldView) -> spec_fn(OwnedBannerView) -> OwnedBannerView {
    |b: OwnedBannerView|
        if same_key(b, owner, title) {
            OwnedBannerView { owner: b.owner, banner: apply_field(b.banner, f) }
        } else {
            b
        }
}

/// The store after `owner` sets a field of the banner titled `title` at `timestamp`.
pub open spec fn update_spec(
    m: RepoView,
    owner: Seq<char>,
    title: Seq<char>,
    f: FieldView,
    timestamp: Seq<char>,
) -> RepoView {
    if has_account(m.accounts, owner) {
        RepoView {
            accounts: m.accounts,
            banners: m.banners.map_values(update_one(owner, title, f)),
            logs: m.logs.push(entry_spec(owner, field_action(f), timestamp)),
            flagged: m.flagged,
        }
    } else {
        m
    }
}

/// `b` with the field of `f` set to its value.
pub fn with_field(b: &Banner, f: &BannerField) -> (r: Banner)
    ensures
        r@ == apply_field(b@, f@),
{
    let mut r = b.duplicate();
    match f {
        BannerField::CurrentEpisodes(n) => r.current_episodes = *n,
        BannerField::TotalEpisodes(n) => r.total_episodes = *n,
        BannerField::ReleaseDay(d) => r.release_day = d.clone(),
        BannerField::ReleaseTime(t) => r.release_time = t.clone(),
    }
    r
}

impl BannerField {
    /// The audit action that records an update of this field.
    pub fn action(&self) -> (r: AuditAction)
        ensures
            r == field_action(self@),
    {
        match self {
            BannerField::CurrentEpisodes(_) => AuditAction::UpdateCurrentEpisodes,
            BannerField::TotalEpisodes(_) => AuditAction::UpdateTotalEpisodes,
            BannerField::ReleaseDay(_) => AuditAction::UpdateReleaseDay,
            BannerField::ReleaseTime(_) => AuditAction::UpdateReleaseTime,
        }
    }
}

impl BannerRepo {
    pub open spec fn wf(&self) -> bool {
        repo_wf(self@)
    }

    /// An empty store.
    pub fn new() -> (r: BannerRepo)
        ensures
            r.wf(),
            r@.accounts.len() == 0,
            r@.banners.len() == 0,
            r@.logs.len() == 0,
            r@.flagged.len() == 0,
    {
        let r = BannerRepo { accounts: Vec::new(), banners: Vec::new(), logs: Vec::new(), flagged: Vec::new() };
        assert(r@.flagged =~= Seq::<Seq<char>>::empty());
        r
    }

    /// Position of the account named `name`.
    fn find_account(&self, name: &String) -> (r: Option<usize>)
        requires
            self.wf(),
        ensures
            r matches Some(i) ==> i < self@.accounts.len() && self@.accounts[i as int].user_name == name@
                && account_named(self@.accounts, name@) == self@.accounts[i as int],
            r is None ==> !has_account(self@.accounts, name@),
    {
        let mut i: usize = 0;
        while i < self.accounts.len()
            invariant
                self.wf(),
                i <= self.accounts@.len(),
                forall|j: int| 0 <= j < i ==> self.accounts@[j].user_name@ != name@,
            decreases self.accounts@.len() - i,
        {
            if self.accounts[i].user_name == *name {
                proof {
                    let accs = self@.accounts;
                    assert(repo_wf(self@));
                    assert(accs[i as int].user_name == name@);
                    let k = choose|k: int| 0 <= k < accs.len() && #[trigger] accs[k].user_name == name@;
                    assert(k == i) by {
                        if k < i {
                            assert(accs[k].user_name != accs[i as int].user_name);
                        } else if k > i {
                            assert(accs[i as int].user_name != accs[k].user_name);
                        }
                    }
                }
                return Some(i);
            }
            i = i + 1;
        }
        assert(!has_account(self@.accounts, name@)) by {
            if has_account(self@.accounts, name@) {
                let k = choose|k: int| 0 <= k < self@.accounts.len() && #[trigger] self@.accounts[k].user_name == name@;
                assert(self.accounts@[k].user_name@ == name@);
            }
        }
        None
    }

    /// Registers an account; `false`, with nothing changed, where the name is taken.
    pub fn register_user(&mut self, user_name: String, password: String, is_admin: bool) -> (r: bool)
        requires
            old(self).wf(),
        ensures
            final(self).wf(),
            r == !has_account(old(self)@.accounts, user_name@),
            final(self)@ == register_spec(
                old(self)@,
                user_name@,
                password@,
                if is_admin { Role::Admin } else { Role::User },
            ),
    {
        if self.find_account(&user_name).is_some() {
            return false;
        }
        let ghost m = self@;
        let role = Role::from_admin_flag(is_admin);
        let ghost a = AccountView { user_name: user_name@, password: password@, role };
        self.accounts.push(Account { user_name, password, role });
        assert(self@.accounts =~= m.accounts.push(a));
        proof {
            lemma_register_keeps_wf(m, a);
        }
        true
    }

    /// Whether `owner` holds a banner titled `title`.
    fn holds_banner(&self, owner: &String, title: &String) -> (r: bool)
        ensures
            r == has_banner(self@.banners, owner@, title@),
    {
        let mut i: usize = 0;
        while i < self.banners.len()
            invariant
                i <= self.banners@.len(),
                forall|j: int| 0 <= j < i ==> !same_key(#[trigger] self@.banners[j], owner@, title@),
            decreases self.banners@.len() - i,
        {
            if self.banners[i].owner == *owner && self.banners[i].banner.title == *title {
                assert(same_key(self@.banners[i as int], owner@, title@));
                return true;
            }
            assert(self@.banners[i as int] == self.banners@[i as int]@);
            i = i + 1;
        }
        false
    }

    /// Adds a banner for `user_name`, recording the action at `timestamp`.
    pub fn add_banner_at(&mut self, banner: Banner, user_name: String, timestamp: String) -> (r: Result<(), StoreError>)
        requires
            old(self).wf(),
        ensures
            final(self).wf(),
            r == add_outcome(old(self)@, user_name@, banner@.title),
            final(self)@ == add_spec(old(self)@, user_name@, banner@, timestamp@),
    {
        if self.find_account(&user_name).is_none() {
            return Err(StoreError::UnknownAccount);
        }
        if self.holds_banner(&user_name, &banner.title) {
            return Err(StoreError::Conflict);
        }
        let ghost m = self@;
        let ghost ob = OwnedBannerView { owner: user_name@, banner: banner@ };
        let ghost e = entry_spec(user_name@, AuditAction::Add, timestamp@);
        self.banners.push(OwnedBanner { owner: user_name.clone(), banner });
        self.logs.push(AuditEntry { user_name, action: AuditAction::Add, timestamp });
        assert(self@.banners =~= m.banners.push(ob));
        assert(self@.logs =~= m.logs.push(e));
        assert(self@.accounts =~= m.accounts);
        assert(self@.flagged =~= m.flagged);
        proof {
            let n = self@;
            assert forall|i: int, j: int| 0 <= i < j < n.banners.len() implies !same_key(
                n.banners[i],
                n.banners[j].owner,
                n.banners[j].banner.title,
            ) by {
                if j == m.banners.len() {
                    assert(!same_key(m.banners[i], ob.owner, ob.banner.title));
                } else {
                    assert(n.banners[i] == m.banners[i] && n.banners[j] == m.banners[j]);
                }
            }
            assert forall|i: int| 0 <= i < n.logs.len() implies has_account(n.accounts, #[trigger] n.logs[i].user_name) by {
                if i < m.logs.len() {
                    assert(n.logs[i] == m.logs[i]);
                }
            }
            assert forall|i: int| 0 <= i < n.banners.len() implies has_account(n.accounts, #[trigger] n.banners[i].owner) by {
                if i < m.banners.len() {
                    assert(n.banners[i] == m.banners[i]);
                }
            }
        }
        Ok(())
    }

    /// Deletes the banner of `user_name` titled `title`, if there is one, and
    /// records the deletion at `timestamp` either way.
    pub fn delete_banner_at(&mut self, title: String, user_name: String, timestamp: String) -> (r: Result<(), StoreError>)
        requires
            old(self).wf(),
        ensures
            final(self).wf(),
            r == change_outcome(old(self)@, user_name@),
            final(self)@ == delete_spec(old(self)@, user_name@, title@, timestamp@),
    {
        if self.find_account(&user_name).is_none() {
            return Err(StoreError::UnknownAccount);
        }
        let ghost m = self@;
        let ghost keep = other_key(user_name@, title@);
        let mut kept: Vec<OwnedBanner> = Vec::new();
        let mut i: usize = 0;
        while i < self.banners.len()
            invariant
                self@ == m,
                keep == other_key(user_name@, title@),
                i <= self.banners@.len(),
                owned_views(kept@) == m.banners.subrange(0, i as int).filter(keep),
            decreases self.banners@.len() - i,
        {
            proof {
                lemma_filter_prefix_step(m.banners, keep, i as int);
            }
            assert(m.banners[i as int] == self.banners@[i as int]@);
            let ghost prev = kept@;
            let hit = self.banners[i].owner == user_name && self.banners[i].banner.title == title;
            assert(hit == same_key(m.banners[i as int], user_name@, title@));
            assert(keep(m.banners[i as int]) == !hit);
            if !hit {
                let b = self.banners[i].duplicate();
                kept.push(b);
                assert(owned_views(kept@) =~= owned_views(prev).push(b@));
            }
            i = i + 1;
        }
        assert(m.banners.subrange(0, i as int) =~= m.banners);
        let ghost e = entry_spec(user_name@, AuditAction::Delete, timestamp@);
        self.banners = kept;
        self.logs.push(AuditEntry { user_name, action: AuditAction::Delete, timestamp });
        assert(self@.logs =~= m.logs.push(e));
        assert(self@.accounts =~= m.accounts);
        assert(self@.flagged =~= m.flagged);
        proof {
            let n = self@;
            let rel = |x: OwnedBannerView, y: OwnedBannerView| !same_key(x, y.owner, y.banner.title);
            assert forall|i: int, j: int| 0 <= i < j < m.banners.len() implies rel(m.banners[i], m.banners[j]) by {}
            lemma_filter_keeps_pairs(m.banners, keep, rel);
            let reg = |x: OwnedBannerView| has_account(m.accounts, x.owner);
            assert forall|i: int| 0 <= i < m.banners.len() implies reg(m.banners[i]) by {}
            lemma_filter_keeps_all(m.banners, keep, reg);
            assert forall|i: int| 0 <= i < n.banners.len() implies has_account(n.accounts, #[trigger] n.banners[i].owner) by {
                assert(reg(n.banners[i]));
            }
            assert forall|i: int, j: int| 0 <= i < j < n.banners.len() implies !same_key(
                n.banners[i],
                n.banners[j].owner,
                n.banners[j].banner.title,
            ) by {
                assert(rel(n.banners[i], n.banners[j]));
            }
            assert forall|i: int| 0 <= i < n.logs.len() implies has_account(n.accounts, #[trigger] n.logs[i].user_name) by {
                if i < m.logs.len() {
                    assert(n.logs[i] == m.logs[i]);
                }
            }
        }
        Ok(())
    }

    /// Sets a field of the banner of `user_name` titled `title`, if there is
    /// one, and records the update at `timestamp` either way.
    pub fn update_banner_field_at(
        &mut self,
        title: String,
        field: BannerField,
        user_name: String,
        timestamp: String,
    ) -> (r: Result<(), StoreError>)
        requires
            old(self).wf(),
        ensures
            final(self).wf(),
            r == change_outcome(old(self)@, user_name@),
            final(self)@ == update_spec(old(self)@, user_name@, title@, field@, timestamp@),
    {
        if self.find_account(&user_name).is_none() {
            return Err(StoreError::UnknownAccount);
        }
        let ghost m = self@;
        let ghost upd = update_one(user_name@, title@, field@);
        let mut out: Vec<OwnedBanner> = Vec::new();
        let mut i: usize = 0;
        while i < self.banners.len()
            invariant
                self@ == m,
                upd == update_one(user_name@, title@, field@),
                i <= self.banners@.len(),
                owned_views(out@) == m.banners.subrange(0, i as int).map_values(upd),
            decreases self.banners@.len() - i,
        {
            assert(m.banners[i as int] == self.banners@[i as int]@);
            let ghost prev = out@;
            let hit = self.banners[i].owner == user_name && self.banners[i].banner.title == title;
            assert(hit == same_key(m.banners[i as int], user_name@, title@));
            let b = if hit {
                OwnedBanner { owner: self.banners[i].owner.clone(), banner: with_field(&self.banners[i].banner, &field) }
            } else {
                self.banners[i].duplicate()
            };
            assert(b@ == upd(m.banners[i as int]));
            out.push(b);
            assert(owned_views(out@) =~= owned_views(prev).push(b@));
            i = i + 1;
            assert(m.banners.subrange(0, i as int).map_values(upd) =~= m.banners.subrange(0, i - 1).map_values(upd).push(upd(m.banners[i - 1])));
        }
        assert(m.banners.subrange(0, i as int) =~= m.banners);
        let ghost e = entry_spec(user_name@, field_action(field@), timestamp@);
        let action = field.action();
        self.banners = out;
        self.logs.push(AuditEntry { user_name, action, timestamp });
        assert(self@.logs =~= m.logs.push(e));
        assert(self@.accounts =~= m.accounts);
        assert(self@.flagged =~= m.flagged);
        proof {
            let n = self@;
            assert forall|i: int| 0 <= i < n.banners.len() implies n.banners[i].owner == m.banners[i].owner
                && n.banners[i].banner.title == m.banners[i].banner.title by {}
            assert forall|i: int| 0 <= i < n.banners.len() implies has_account(n.accounts, #[trigger] n.banners[i].owner) by {
                assert(n.banners[i].owner == m.banners[i].owner);
            }
            assert forall|i: int, j: int| 0 <= i < j < n.banners.len() implies !same_key(
                n.banners[i],
                n.banners[j].owner,
                n.banners[j].banner.title,
            ) by {
                assert(!same_key(m.banners[i], m.banners[j].owner, m.banners[j].banner.title));
            }
            assert forall|i: int| 0 <= i < n.logs.len() implies has_account(n.accounts, #[trigger] n.logs[i].user_name) by {
                if i < m.logs.len() {
                    assert(n.logs[i] == m.logs[i]);
                }
            }
        }
        Ok(())
    }

    /// The banners of `user_name`, in store order.
    pub fn get_all_banners(&self, user_name: String) -> (r: Vec<Banner>)
        ensures
            banner_views(r@) == owned_by(self@.banners, user_name@),
    {
        let ghost bs = self@.banners;
        let ghost p = owned_pred(user_name@);
        let mut r: Vec<Banner> = Vec::new();
        let mut i: usize = 0;
        while i < self.banners.len()
            invariant
                bs == self@.banners,
                p == owned_pred(user_name@),
                i <= self.banners@.len(),
                banner_views(r@) == bs.subrange(0, i as int).filter(p).map_values(|b: OwnedBannerView| b.banner),
            decreases self.banners@.len() - i,
        {
            proof {
                lemma_filter_prefix_step(bs, p, i as int);
            }
            assert(bs[i as int] == self.banners@[i as int]@);
            let ghost prev = r@;
            let ghost f = bs.subrange(0, i as int).filter(p);
            if self.banners[i].owner == user_name {
                let b = self.banners[i].banner.duplicate();
                r.push(b);
                assert(banner_views(r@) =~= banner_views(prev).push(b@));
                assert(f.push(bs[i as int]).map_values(|b: OwnedBannerView| b.banner)
                    =~= f.map_values(|b: OwnedBannerView| b.banner).push(b@));
            }
            i = i + 1;
        }
        assert(bs.subrange(0, i as int) =~= bs);
        r
    }

    /// Page `page_count` (from 0), of `page_size` rows, of the banners of
    /// `user_name` whose title holds `query`, ignoring ASCII case.
    pub fn search_banners(&self, query: String, page_size: usize, page_count: usize, user_name: String) -> (r: Vec<Banner>)
        ensures
            banner_views(r@) == search_spec(self@, query@, page_size as int, page_count as int, user_name@),
    {
        let all = self.get_all_banners(user_name);
        let hits = matching_titles(&all, query.as_str());
        page_of(&hits, page_size, page_count)
    }

    /// Page `page_count` (from 0), of `page_size` rows, of the banners of `user_name`.
    pub fn get_paged_banners(&self, page_size: usize, page_count: usize, user_name: String) -> (r: Vec<Banner>)
        ensures
            banner_views(r@) == page_spec(owned_by(self@.banners, user_name@), page_size as int, page_count as int),
    {
        let all = self.get_all_banners(user_name);
        page_of(&all, page_size, page_count)
    }

    /// Page `page_count` (from 0), of `page_size` rows, of the banners of
    /// `user_name` ordered by how soon each releases after weekday `today`
    /// (0 for Sunday); rows that release on the same day keep store order.
    pub fn sort_banners_by_release_day_on(
        &self,
        today: u8,
        page_size: usize,
        page_count: usize,
        user_name: String,
    ) -> (r: Vec<Banner>)
        requires
            today < 7,
        ensures
            banner_views(r@) == release_page_spec(self@, today as int, page_size as int, page_count as int, user_name@),
    {
        let all = self.get_all_banners(user_name);
        let ordered = order_by_release_day(&all, today);
        page_of(&ordered, page_size, page_count)
    }

    /// As `sort_banners_by_release_day_on`, for the current UTC weekday.
    pub fn sort_banners_by_release_day(&self, page_size: usize, page_count: usize, user_name: String) -> (r: Vec<Banner>)
        ensures
            exists|today: int|
                0 <= today < 7 && banner_views(r@) == #[trigger] release_page_spec(
                    self@,
                    today,
                    page_size as int,
                    page_count as int,
                    user_name@,
                ),
    {
        let today = weekday_of(clock_now());
        let r = self.sort_banners_by_release_day_on(today, page_size, page_count, user_name);
        assert(banner_views(r@) == release_page_spec(self@, today as int, page_size as int, page_count as int, user_name@));
        r
    }

    /// One sweep of the monitor over the audit entries stamped in the second
    /// of `cutoff` or later: every account with at least `SUSPICIOUS_ACTION_COUNT` of them
    /// is reported, each once, and flagged if it was not yet.
    pub fn check_for_attacks_at(&mut self, cutoff: &str) -> (r: Vec<String>)
        requires
            old(self).wf(),
        ensures
            final(self).wf(),
            text_views(r@) == tick_suspects(old(self)@, cutoff@),
            final(self)@ == tick_spec(old(self)@, cutoff@),
    {
        let ghost m = self@;
        let ghost p = in_window(cutoff@);
        let mut users: Vec<String> = Vec::new();
        let mut i: usize = 0;
        while i < self.logs.len()
            invariant
                self@ == m,
                p == in_window(cutoff@),
                i <= self.logs@.len(),
                text_views(users@) == m.logs.subrange(0, i as int).filter(p).map_values(|e: AuditEntryView| e.user_name),
            decreases self.logs@.len() - i,
        {
            proof {
                lemma_filter_prefix_step(m.logs, p, i as int);
            }
            assert(m.logs[i as int] == self.logs@[i as int]@);
            let ghost prev = users@;
            let ghost f = m.logs.subrange(0, i as int).filter(p);
            if stamp_at_least(self.logs[i].timestamp.as_str(), cutoff) {
                let u = self.logs[i].user_name.clone();
                users.push(u);
                assert(text_views(users@) =~= text_views(prev).push(u@));
                assert(f.push(m.logs[i as int]).map_values(|e: AuditEntryView| e.user_name)
                    =~= f.map_values(|e: AuditEntryView| e.user_name).push(u@));
            }
            i = i + 1;
        }
        assert(m.logs.subrange(0, i as int) =~= m.logs);
        let found = suspects(&users, SUSPICIOUS_ACTION_COUNT);
        flag_all(&mut self.flagged, &found);
        assert(self@.accounts =~= m.accounts);
        assert(self@.banners =~= m.banners);
        assert(self@.logs =~= m.logs);
        assert(self@.flagged =~= add_missing(m.flagged, tick_suspects(m, cutoff@)));
        proof {
            let w = window_users(m.logs, cutoff@);
            let reg = |e: AuditEntryView| has_account(m.accounts, e.user_name);
            assert forall|i: int| 0 <= i < m.logs.len() implies reg(m.logs[i]) by {}
            lemma_filter_keeps_all(m.logs, p, reg);
            let sus = tick_suspects(m, cutoff@);
            assert forall|i: int| 0 <= i < sus.len() implies has_account(m.accounts, #[trigger] sus[i]) by {
                let x = sus[i];
                assert(sus.contains(x));
                distinct_spec(w).lemma_filter_contains_rev(reaches(w, SUSPICIOUS_ACTION_COUNT as nat), x);
                lemma_distinct_contains(w, x);
                let k = choose|k: int| 0 <= k < w.len() && w[k] == x;
                let f = m.logs.filter(p);
                assert(w[k] == f[k].user_name);
                assert(reg(f[k]));
            }
            assert forall|i: int| 0 <= i < self@.flagged.len() implies has_account(
                self@.accounts,
                #[trigger] self@.flagged[i],
            ) by {
                let x = self@.flagged[i];
                assert(self@.flagged.contains(x));
                lemma_add_missing_contains(m.flagged, sus, x);
                if m.flagged.contains(x) {
                    let k = choose|k: int| 0 <= k < m.flagged.len() && m.flagged[k] == x;
                } else {
                    let k = choose|k: int| 0 <= k < sus.len() && sus[k] == x;
                }
            }
            lemma_add_missing_no_duplicates(m.flagged, sus);
        }
        found
    }

    /// One sweep of the monitor over the `MONITOR_INTERVAL_SECONDS` seconds
    /// before `now`, a UNIX time in seconds: its window starts at the RFC 3339
    /// text of `now - MONITOR_INTERVAL_SECONDS`. Where that instant cannot be
    /// written, nothing is reported or changed.
    pub fn check_for_attacks_from(&mut self, now: i64) -> (r: Vec<String>)
        requires
            old(self).wf(),
        ensures
            final(self).wf(),
            EARLIEST_WRITABLE_SECOND + MONITOR_INTERVAL_SECONDS <= now <= LATEST_WRITABLE_SECOND
                + MONITOR_INTERVAL_SECONDS ==> text_views(r@) == tick_suspects(
                old(self)@,
                rfc3339_of(now - MONITOR_INTERVAL_SECONDS),
            ),
            (r@.len() == 0 && final(self)@ == old(self)@) || (text_views(r@) == tick_suspects(
                old(self)@,
                rfc3339_of(now - MONITOR_INTERVAL_SECONDS),
            ) && final(self)@ == tick_spec(old(self)@, rfc3339_of(now - MONITOR_INTERVAL_SECONDS))),
    {
        if now < i64::MIN + MONITOR_INTERVAL_SECONDS {
            return Vec::new();
        }
        match format_rfc3339(now - MONITOR_INTERVAL_SECONDS) {
            None => Vec::new(),
            Some(cutoff) => self.check_for_attacks_at(cutoff.as_str()),
        }
    }

    /// One sweep of the monitor over the last `MONITOR_INTERVAL_SECONDS`
    /// seconds by the clock; see `check_for_attacks_from`.
    pub fn check_for_attacks(&mut self) -> (r: Vec<String>)
        requires
            old(self).wf(),
        ensures
            final(self).wf(),
            exists|now: i64|
                {
                    &&& EARLIEST_WRITABLE_SECOND + MONITOR_INTERVAL_SECONDS <= now <= LATEST_WRITABLE_SECOND
                        + MONITOR_INTERVAL_SECONDS ==> text_views(r@) == tick_suspects(
                        old(self)@,
                        #[trigger] rfc3339_of(now - MONITOR_INTERVAL_SECONDS),
                    )
                    &&& (r@.len() == 0 && final(self)@ == old(self)@) || (text_views(r@) == tick_suspects(
                        old(self)@,
                        rfc3339_of(now - MONITOR_INTERVAL_SECONDS),
                    ) && final(self)@ == tick_spec(old(self)@, rfc3339_of(now - MONITOR_INTERVAL_SECONDS)))
                },
    {
        let now = clock_now();
        let ghost m = self@;
        let r = self.check_for_attacks_from(now);
        let ghost c = rfc3339_of(now - MONITOR_INTERVAL_SECONDS);
        assert((EARLIEST_WRITABLE_SECOND + MONITOR_INTERVAL_SECONDS <= now <= LATEST_WRITABLE_SECOND
            + MONITOR_INTERVAL_SECONDS ==> text_views(r@) == tick_suspects(m, c)) && ((r@.len() == 0
            && self@ == m) || (text_views(r@) == tick_suspects(m, c) && self@ == tick_spec(m, c))));
        r
    }

    /// Adds a banner for `user_name`, recording the action at the current time.
    pub fn add_banner(&mut self, banner: Banner, user_name: String) -> (r: Result<(), StoreError>)
        requires
            old(self).wf(),
        ensures
            final(self).wf(),
            r == Err::<(), StoreError>(StoreError::ClockUnavailable) ==> final(self)@ == old(self)@,
            r != Err::<(), StoreError>(StoreError::ClockUnavailable) ==> r == add_outcome(old(self)@, user_name@, banner@.title)
                && exists|t: int| final(self)@ == #[trigger] add_spec(old(self)@, user_name@, banner@, rfc3339_of(t)),
    {
        match current_timestamp() {
            None => Err(StoreError::ClockUnavailable),
            Some(ts) => {
                let ghost m = self@;
                let r = self.add_banner_at(banner, user_name, ts);
                let ghost t = choose|t: int| ts@ == rfc3339_of(t);
                assert(self@ == add_spec(m, user_name@, banner@, rfc3339_of(t)));
                r
            },
        }
    }

    /// Deletes the banner of `user_name` titled `title`, if there is one, and
    /// records the deletion at the current time either way.
    pub fn delete_banner(&mut self, title: String, user_name: String) -> (r: Result<(), StoreError>)
        requires
            old(self).wf(),
        ensures
            final(self).wf(),
            r == Err::<(), StoreError>(StoreError::ClockUnavailable) ==> final(self)@ == old(self)@,
            r != Err::<(), StoreError>(StoreError::ClockUnavailable) ==> r == change_outcome(old(self)@, user_name@)
                && exists|t: int| final(self)@ == #[trigger] delete_spec(old(self)@, user_name@, title@, rfc3339_of(t)),
    {
        match current_timestamp() {
            None => Err(StoreError::ClockUnavailable),
            Some(ts) => {
                let ghost m = self@;
                let r = self.delete_banner_at(title, user_name, ts);
                let ghost t = choose|t: int| ts@ == rfc3339_of(t);
                assert(self@ == delete_spec(m, user_name@, title@, rfc3339_of(t)));
                r
            },
        }
    }

    /// Sets a field of the banner of `user_name` titled `title`, if there is
    /// one, and records the update at the current time either way.
    pub fn update_banner_field(&mut self, title: String, field: BannerField, user_name: String) -> (r: Result<(), StoreError>)
        requires
            old(self).wf(),
        ensures
            final(self).wf(),
            r == Err::<(), StoreError>(StoreError::ClockUnavailable) ==> final(self)@ == old(self)@,
            r != Err::<(), StoreError>(StoreError::ClockUnavailable) ==> r == change_outcome(old(self)@, user_name@)
                && exists|t: int| final(self)@ == #[trigger] update_spec(old(self)@, user_name@, title@, field@, rfc3339_of(t)),
    {
        match current_timestamp() {
            None => Err(StoreError::ClockUnavailable),
            Some(ts) => {
                let ghost m = self@;
                let ghost f = field@;
                let r = self.update_banner_field_at(title, field, user_name, ts);
                let ghost t = choose|t: int| ts@ == rfc3339_of(t);
                assert(self@ == update_spec(m, user_name@, title@, f, rfc3339_of(t)));
                r
            },
        }
    }

    /// Sets the current episode count of a banner; see `update_banner_field`.
    pub fn update_banner_current_episodes(&mut self, title: String, current_episodes: u32, user_name: String) -> (r: Result<(), StoreError>)
        requires
            old(self).wf(),
        ensures
            final(self).wf(),
            r == Err::<(), StoreError>(StoreError::ClockUnavailable) ==> final(self)@ == old(self)@,
            r != Err::<(), StoreError>(StoreError::ClockUnavailable) ==> r == change_outcome(old(self)@, user_name@)
                && exists|t: int|
                final(self)@ == #[trigger] update_spec(
                    old(self)@,
                    user_name@,
                    title@,
                    FieldView::CurrentEpisodes(current_episodes),
                    rfc3339_of(t),
                ),
    {
        self.update_banner_field(title, BannerField::CurrentEpisodes(current_episodes), user_name)
    }

    /// Sets the total episode count of a banner; see `update_banner_field`.
    pub fn update_banner_total_episodes(&mut self, title: String, total_episodes: u32, user_name: String) -> (r: Result<(), StoreError>)
        requires
            old(self).wf(),
        ensures
            final(self).wf(),
            r == Err::<(), StoreError>(StoreError::ClockUnavailable) ==> final(self)@ == old(self)@,
            r != Err::<(), StoreError>(StoreError::ClockUnavailable) ==> r == change_outcome(old(self)@, user_name@)
                && exists|t: int|
                final(self)@ == #[trigger] update_spec(
                    old(self)@,
                    user_name@,
                    title@,
                    FieldView::TotalEpisodes(total_episodes),
                    rfc3339_of(t),
                ),
    {
        self.update_banner_field(title, BannerField::TotalEpisodes(total_episodes), user_name)
    }

    /// Sets the release day of a banner; see `update_banner_field`.
    pub fn update_banner_release_day(&mut self, title: String, release_day: String, user_name: String) -> (r: Result<(), StoreError>)
        requires
            old(self).wf(),
        ensures
            final(self).wf(),
            r == Err::<(), StoreError>(StoreError::ClockUnavailable) ==> final(self)@ == old(self)@,
            r != Err::<(), StoreError>(StoreError::ClockUnavailable) ==> r == change_outcome(old(self)@, user_name@)
                && exists|t: int|
                final(self)@ == #[trigger] update_spec(
                    old(self)@,
                    user_name@,
                    title@,
                    FieldView::ReleaseDay(release_day@),
                    rfc3339_of(t),
                ),
    {
        self.update_banner_field(title, BannerField::ReleaseDay(release_day), user_name)
    }

    /// Sets the release time of a banner; see `update_banner_field`.
    pub fn update_banner_release_time(&mut self, title: String, release_time: String, user_name: String) -> (r: Result<(), StoreError>)
        requires
            old(self).wf(),
        ensures
            final(self).wf(),
            r == Err::<(), StoreError>(StoreError::ClockUnavailable) ==> final(self)@ == old(self)@,
            r != Err::<(), StoreError>(StoreError::ClockUnavailable) ==> r == change_outcome(old(self)@, user_name@)
                && exists|t: int|
                final(self)@ == #[trigger] update_spec(
                    old(self)@,
                    user_name@,
                    title@,
                    FieldView::ReleaseTime(release_time@),
                    rfc3339_of(t),
                ),
    {
        self.update_banner_field(title, BannerField::ReleaseTime(release_time), user_name)
    }

    /// The registered accounts, in registration order.
    pub fn accounts(&self) -> (r: &Vec<Account>)
        ensures
            account_views(r@) == self@.accounts,
    {
        &self.accounts
    }

    /// Every banner with its owner, in store order.
    pub fn banner_rows(&self) -> (r: &Vec<OwnedBanner>)
        ensures
            owned_views(r@) == self@.banners,
    {
        &self.banners
    }

    /// The audit log, oldest entry first.
    pub fn audit_log(&self) -> (r: &Vec<AuditEntry>)
        ensures
            entry_views(r@) == self@.logs,
    {
        &self.logs
    }

    /// The flagged accounts, in the order they were flagged.
    pub fn flagged_accounts(&self) -> (r: &Vec<String>)
        ensures
            text_views(r@) == self@.flagged,
    {
        &self.flagged
    }

    /// Puts back a banner that was stored before, without an audit entry;
    /// refused as `add_banner_at` refuses.
    pub fn restore_banner(&mut self, banner: Banner, owner: String) -> (r: Result<(), StoreError>)
        requires
            old(self).wf(),
        ensures
            final(self).wf(),
            r == add_outcome(old(self)@, owner@, banner@.title),
            r is Ok ==> final(self)@ == (RepoView {
                banners: old(self)@.banners.push(OwnedBannerView { owner: owner@, banner: banner@ }),
                ..old(self)@
            }),
            r is Err ==> final(self)@ == old(self)@,
    {
        if self.find_account(&owner).is_none() {
            return Err(StoreError::UnknownAccount);
        }
        if self.holds_banner(&owner, &banner.title) {
            return Err(StoreError::Conflict);
        }
        let ghost m = self@;
        let ghost ob = OwnedBannerView { owner: owner@, banner: banner@ };
        self.banners.push(OwnedBanner { owner, banner });
        assert(self@.banners =~= m.banners.push(ob));
        assert(self@.logs =~= m.logs);
        assert(self@.accounts =~= m.accounts);
        assert(self@.flagged =~= m.flagged);
        proof {
            let n = self@;
            assert forall|i: int, j: int| 0 <= i < j < n.banners.len() implies !same_key(
                n.banners[i],
                n.banners[j].owner,
                n.banners[j].banner.title,
            ) by {
                if j == m.banners.len() {
                    assert(!same_key(m.banners[i], ob.owner, ob.banner.title));
                } else {
                    assert(n.banners[i] == m.banners[i] && n.banners[j] == m.banners[j]);
                }
            }
            assert forall|i: int| 0 <= i < n.banners.len() implies has_account(n.accounts, #[trigger] n.banners[i].owner) by {
                if i < m.banners.len() {
                    assert(n.banners[i] == m.banners[i]);
                }
            }
        }
        Ok(())
    }

    /// Puts back an audit entry that was recorded before; refused for an
    /// account that is not registered.
    pub fn restore_log_entry(&mut self, entry: AuditEntry) -> (r: Result<(), StoreError>)
        requires
            old(self).wf(),
        ensures
            final(self).wf(),
            r == change_outcome(old(self)@, entry@.user_name),
            r is Ok ==> final(self)@ == (RepoView { logs: old(self)@.logs.push(entry@), ..old(self)@ }),
            r is Err ==> final(self)@ == old(self)@,
    {
        if self.find_account(&entry.user_name).is_none() {
            return Err(StoreError::UnknownAccount);
        }
        let ghost m = self@;
        let ghost e = entry@;
        self.logs.push(entry);
        assert(self@.logs =~= m.logs.push(e));
        assert(self@.banners =~= m.banners);
        assert(self@.accounts =~= m.accounts);
        assert(self@.flagged =~= m.flagged);
        proof {
            let n = self@;
            assert forall|i: int| 0 <= i < n.logs.len() implies has_account(n.accounts, #[trigger] n.logs[i].user_name) by {
                if i < m.logs.len() {
                    assert(n.logs[i] == m.logs[i]);
                }
            }
        }
        Ok(())
    }

    /// Puts back a flag that was raised before; flagging an account twice
    /// keeps one flag. Refused for an account that is not registered.
    pub fn restore_flag(&mut self, user_name: String) -> (r: Result<(), StoreError>)
        requires
            old(self).wf(),
        ensures
            final(self).wf(),
            r == change_outcome(old(self)@, user_name@),
            r is Ok ==> final(self)@ == (RepoView {
                flagged: add_missing(old(self)@.flagged, seq![user_name@]),
                ..old(self)@
            }),
            r is Err ==> final(self)@ == old(self)@,
    {
        if self.find_account(&user_name).is_none() {
            return Err(StoreError::UnknownAccount);
        }
        let ghost m = self@;
        let one = vec![user_name];
        assert(text_views(one@) =~= seq![one@[0]@]);
        flag_all(&mut self.flagged, &one);
        assert(self@.logs =~= m.logs);
        assert(self@.banners =~= m.banners);
        assert(self@.accounts =~= m.accounts);
        assert(self@.flagged =~= add_missing(m.flagged, seq![one@[0]@]));
        proof {
            let n = self@;
            let xs = seq![one@[0]@];
            assert forall|i: int| 0 <= i < n.flagged.len() implies has_account(n.accounts, #[trigger] n.flagged[i]) by {
                let x = n.flagged[i];
                assert(n.flagged.contains(x));
                lemma_add_missing_contains(m.flagged, xs, x);
                if m.flagged.contains(x) {
                    let k = choose|k: int| 0 <= k < m.flagged.len() && m.flagged[k] == x;
                } else {
                    assert(xs[0] == x);
                }
            }
            lemma_add_missing_no_duplicates(m.flagged, xs);
        }
        Ok(())
    }

    /// Checks a name and password: the account's role, or why they were refused.
    pub fn login(&self, user_name: String, password: String) -> (r: LoginResult)
        requires
            self.wf(),
        ensures
            r@ == login_spec(self@, user_name@, password@),
    {
        match self.find_account(&user_name) {
            None => LoginResult::Fail { error: String::from_str("user not found") },
            Some(i) => {
                if self.accounts[i].password != password {
                    LoginResult::Fail { error: String::from_str("invalid password") }
                } else {
                    match self.accounts[i].role {
                        Role::Admin => LoginResult::Admin,
                        Role::User => LoginResult::User,
                    }
                }
            },
        }
    }
}

proof fn lemma_register_keeps_wf(m: RepoView, a: AccountView)
    requires
        repo_wf(m),
        !has_account(m.accounts, a.user_name),
    ensures
        repo_wf(RepoView { accounts: m.accounts.push(a), banners: m.banners, logs: m.logs, flagged: m.flagged }),
{
    lemma_accounts_grow(m.accounts, a);
    let n = m.accounts.push(a);
    assert forall|i: int, j: int| 0 <= i < j < n.len() implies n[i].user_name != n[j].user_name by {
        if j == m.accounts.len() {
            if n[i].user_name == n[j].user_name {
                assert(m.accounts[i].user_name == a.user_name);
            }
        }
    }
}

/// Registering one more account keeps every registered name registered.
proof fn lemma_accounts_grow(accounts: Seq<AccountView>, a: AccountView)
    ensures
        has_account(accounts.push(a), a.user_name),
        forall|x: Seq<char>| has_account(accounts, x) ==> #[trigger] has_account(accounts.push(a), x),
{
    let n = accounts.push(a);
    assert(n[accounts.len() as int].user_name == a.user_name);
    assert forall|x: Seq<char>| has_account(accounts, x) implies #[trigger] has_account(n, x) by {
        let k = choose|k: int| 0 <= k < accounts.len() && #[trigger] accounts[k].user_name == x;
        assert(n[k].user_name == x);
    }
}

} // verus!
