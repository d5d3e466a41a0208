use our_anime_list::account::{LoginResult, Role, StoreError};
use our_anime_list::audit::{current_timestamp, stamp_at_least, text_at_least, weekday_of, AuditAction, AuditEntry};
use our_anime_list::banner::{weekday_number, Banner};
use our_anime_list::listing::title_matches;
use our_anime_list::monitor::{distinct_users, occurrences, suspects, SUSPICIOUS_ACTION_COUNT};
use our_anime_list::repo::{BannerField, BannerRepo};

fn banner(title: &str, day: &str) -> Banner {
    Banner {
        image_binary: vec![1, 2, 3],
        title: title.to_string(),
        release_day: day.to_string(),
        release_time: "10:00".to_string(),
        current_episodes: 1,
        total_episodes: 12,
    }
}

fn titles(v: &[Banner]) -> Vec<String> {
    v.iter().map(|b| b.title.clone()).collect()
}

fn repo_with(names: &[&str]) -> BannerRepo {
    let mut repo = BannerRepo::new();
    for n in names {
        assert!(repo.register_user(n.to_string(), "pw".to_string(), false));
    }
    repo
}

fn strings(v: &[&str]) -> Vec<String> {
    v.iter().map(|s| s.to_string()).collect()
}

#[test]
fn register_twice_reports_taken_and_keeps_first() {
    let mut repo = BannerRepo::new();
    assert!(repo.register_user("ann".to_string(), "first".to_string(), true));
    assert!(!repo.register_user("ann".to_string(), "second".to_string(), false));
    assert_eq!(repo.accounts().len(), 1);
    assert_eq!(repo.accounts()[0].password, "first");
    assert_eq!(repo.accounts()[0].role, Role::Admin);
    assert!(matches!(repo.login("ann".to_string(), "first".to_string()), LoginResult::Admin));
}

#[test]
fn login_outcomes() {
    let mut repo = BannerRepo::new();
    repo.register_user("admin".to_string(), "adminpassword".to_string(), true);
    repo.register_user("bobross".to_string(), "pass".to_string(), false);
    assert!(matches!(repo.login("admin".to_string(), "adminpassword".to_string()), LoginResult::Admin));
    assert!(matches!(repo.login("bobross".to_string(), "pass".to_string()), LoginResult::User));
    match repo.login("bobross".to_string(), "wrong".to_string()) {
        LoginResult::Fail { error } => assert_eq!(error, "invalid password"),
        _ => panic!("a wrong password must fail"),
    }
    match repo.login("nobody".to_string(), "pass".to_string()) {
        LoginResult::Fail { error } => assert_eq!(error, "user not found"),
        _ => panic!("an unknown user must fail"),
    }
}

#[test]
fn same_title_for_two_owners() {
    let mut repo = repo_with(&["a", "b"]);
    assert_eq!(repo.add_banner_at(banner("Frieren", "Friday"), "a".to_string(), "t1".to_string()), Ok(()));
    assert_eq!(repo.add_banner_at(banner("Frieren", "Friday"), "b".to_string(), "t2".to_string()), Ok(()));
    assert_eq!(titles(&repo.get_all_banners("a".to_string())), strings(&["Frieren"]));
    assert_eq!(titles(&repo.get_all_banners("b".to_string())), strings(&["Frieren"]));
}

#[test]
fn add_same_title_twice_conflicts() {
    let mut repo = repo_with(&["a"]);
    assert_eq!(repo.add_banner_at(banner("X", "Monday"), "a".to_string(), "t1".to_string()), Ok(()));
    assert_eq!(
        repo.add_banner_at(banner("X", "Tuesday"), "a".to_string(), "t2".to_string()),
        Err(StoreError::Conflict)
    );
    assert_eq!(repo.audit_log().len(), 1);
    assert_eq!(repo.get_all_banners("a".to_string())[0].release_day, "Monday");
}

#[test]
fn unknown_account_is_refused() {
    let mut repo = repo_with(&["a"]);
    assert_eq!(
        repo.add_banner_at(banner("X", "Monday"), "ghost".to_string(), "t".to_string()),
        Err(StoreError::UnknownAccount)
    );
    assert_eq!(
        repo.delete_banner_at("X".to_string(), "ghost".to_string(), "t".to_string()),
        Err(StoreError::UnknownAccount)
    );
    assert_eq!(
        repo.update_banner_field_at("X".to_string(), BannerField::CurrentEpisodes(3), "ghost".to_string(), "t".to_string()),
        Err(StoreError::UnknownAccount)
    );
    assert_eq!(repo.audit_log().len(), 0);
}

#[test]
fn delete_missing_is_noop_but_audited() {
    let mut repo = repo_with(&["a"]);
    repo.add_banner_at(banner("Keep", "Monday"), "a".to_string(), "t1".to_string()).unwrap();
    assert_eq!(repo.delete_banner_at("Gone".to_string(), "a".to_string(), "t2".to_string()), Ok(()));
    assert_eq!(titles(&repo.get_all_banners("a".to_string())), strings(&["Keep"]));
    assert_eq!(repo.audit_log().len(), 2);
    assert_eq!(repo.audit_log()[1].action, AuditAction::Delete);
    assert_eq!(repo.audit_log()[1].user_name, "a");
    assert_eq!(repo.audit_log()[1].timestamp, "t2");
}

#[test]
fn delete_removes_only_own_banner() {
    let mut repo = repo_with(&["a", "b"]);
    repo.add_banner_at(banner("X", "Monday"), "a".to_string(), "t".to_string()).unwrap();
    repo.add_banner_at(banner("X", "Monday"), "b".to_string(), "t".to_string()).unwrap();
    repo.add_banner_at(banner("Y", "Monday"), "a".to_string(), "t".to_string()).unwrap();
    repo.delete_banner_at("X".to_string(), "a".to_string(), "t".to_string()).unwrap();
    assert_eq!(titles(&repo.get_all_banners("a".to_string())), strings(&["Y"]));
    assert_eq!(titles(&repo.get_all_banners("b".to_string())), strings(&["X"]));
}

#[test]
fn updates_set_one_field_and_record_it() {
    let mut repo = repo_with(&["a", "b"]);
    repo.add_banner_at(banner("X", "Monday"), "a".to_string(), "t".to_string()).unwrap();
    repo.add_banner_at(banner("X", "Monday"), "b".to_string(), "t".to_string()).unwrap();
    repo.update_banner_field_at("X".to_string(), BannerField::CurrentEpisodes(5), "a".to_string(), "t1".to_string()).unwrap();
    repo.update_banner_field_at("X".to_string(), BannerField::TotalEpisodes(24), "a".to_string(), "t2".to_string()).unwrap();
    repo.update_banner_field_at("X".to_string(), BannerField::ReleaseDay("Sunday".to_string()), "a".to_string(), "t3".to_string()).unwrap();
    repo.update_banner_field_at("X".to_string(), BannerField::ReleaseTime("23:30".to_string()), "a".to_string(), "t4".to_string()).unwrap();
    let a = repo.get_all_banners("a".to_string());
    assert_eq!(a[0].current_episodes, 5);
    assert_eq!(a[0].total_episodes, 24);
    assert_eq!(a[0].release_day, "Sunday");
    assert_eq!(a[0].release_time, "23:30");
    assert_eq!(a[0].image_binary, vec![1, 2, 3]);
    let b = repo.get_all_banners("b".to_string());
    assert_eq!(b[0].current_episodes, 1);
    assert_eq!(b[0].release_day, "Monday");
    let actions: Vec<AuditAction> = repo.audit_log().iter().map(|e| e.action).collect();
    assert_eq!(
        actions,
        vec![
            AuditAction::Add,
            AuditAction::Add,
            AuditAction::UpdateCurrentEpisodes,
            AuditAction::UpdateTotalEpisodes,
            AuditAction::UpdateReleaseDay,
            AuditAction::UpdateReleaseTime
        ]
    );
    assert_eq!(AuditAction::UpdateReleaseTime.label(), "update release time");
    assert_eq!(AuditAction::Add.label(), "add");
}

#[test]
fn update_of_missing_banner_is_noop_but_audited() {
    let mut repo = repo_with(&["a"]);
    assert_eq!(repo.update_banner_field_at("Nope".to_string(), BannerField::TotalEpisodes(3), "a".to_string(), "t".to_string()), Ok(()));
    assert_eq!(repo.get_all_banners("a".to_string()).len(), 0);
    assert_eq!(repo.audit_log().len(), 1);
}

#[test]
fn paging_returns_slices_and_empty_past_end() {
    let mut repo = repo_with(&["a", "b"]);
    for t in ["1", "2", "3", "4", "5"] {
        repo.add_banner_at(banner(t, "Monday"), "a".to_string(), "t".to_string()).unwrap();
        repo.add_banner_at(banner(t, "Monday"), "b".to_string(), "t".to_string()).unwrap();
    }
    assert_eq!(titles(&repo.get_paged_banners(2, 0, "a".to_string())), strings(&["1", "2"]));
    assert_eq!(titles(&repo.get_paged_banners(2, 1, "a".to_string())), strings(&["3", "4"]));
    assert_eq!(titles(&repo.get_paged_banners(2, 2, "a".to_string())), strings(&["5"]));
    assert!(repo.get_paged_banners(2, 3, "a".to_string()).is_empty());
    assert!(repo.get_paged_banners(usize::MAX, usize::MAX, "a".to_string()).is_empty());
    assert!(repo.get_paged_banners(0, 0, "a".to_string()).is_empty());
}

#[test]
fn search_matches_substrings_ignoring_ascii_case() {
    let mut repo = repo_with(&["a", "b"]);
    for t in ["One Piece", "Bleach", "Piece of Cake", "Naruto"] {
        repo.add_banner_at(banner(t, "Monday"), "a".to_string(), "t".to_string()).unwrap();
    }
    repo.add_banner_at(banner("piece elsewhere", "Monday"), "b".to_string(), "t".to_string()).unwrap();
    assert_eq!(
        titles(&repo.search_banners("piece".to_string(), 10, 0, "a".to_string())),
        strings(&["One Piece", "Piece of Cake"])
    );
    assert_eq!(titles(&repo.search_banners("PIECE".to_string(), 1, 1, "a".to_string())), strings(&["Piece of Cake"]));
    assert_eq!(repo.search_banners("".to_string(), 10, 0, "a".to_string()).len(), 4);
    assert!(repo.search_banners("zzz".to_string(), 10, 0, "a".to_string()).is_empty());
    assert!(title_matches("ach", "Bleach"));
    assert!(!title_matches("Bleachy", "Bleach"));
}

#[test]
fn release_day_order_from_monday() {
    let mut repo = repo_with(&["a"]);
    for (t, d) in [("F", "Friday"), ("M", "Monday"), ("W", "Wednesday")] {
        repo.add_banner_at(banner(t, d), "a".to_string(), "t".to_string()).unwrap();
    }
    let sorted = repo.sort_banners_by_release_day_on(1, 10, 0, "a".to_string());
    assert_eq!(titles(&sorted), strings(&["M", "W", "F"]));
}

#[test]
fn release_day_order_wraps_the_week_and_keeps_ties() {
    let mut repo = repo_with(&["a"]);
    for (t, d) in [("S1", "Sunday"), ("T", "Thursday"), ("X", "Someday"), ("S2", "Sunday"), ("Sa", "Saturday")] {
        repo.add_banner_at(banner(t, d), "a".to_string(), "t".to_string()).unwrap();
    }
    let sorted = repo.sort_banners_by_release_day_on(5, 10, 0, "a".to_string());
    assert_eq!(titles(&sorted), strings(&["X", "Sa", "S1", "S2", "T"]));
    let page = repo.sort_banners_by_release_day_on(5, 2, 1, "a".to_string());
    assert_eq!(titles(&page), strings(&["S1", "S2"]));
    assert_eq!(repo.sort_banners_by_release_day(10, 0, "a".to_string()).len(), 5);
}

#[test]
fn weekday_numbers_and_unix_weekdays() {
    assert_eq!(weekday_number("Sunday"), Some(0));
    assert_eq!(weekday_number("Saturday"), Some(6));
    assert_eq!(weekday_number("sunday"), None);
    assert_eq!(weekday_of(0), 4);
    assert_eq!(weekday_of(86_400 * 3), 0);
    assert_eq!(weekday_of(1_704_067_200), 1);
    assert_eq!(weekday_of(-1), 3);
    assert_eq!(weekday_of(-86_400 * 4), 0);
}

fn stamp(second: u32) -> String {
    format!("2024-01-01T00:00:{:02}Z", second)
}

#[test]
fn ten_actions_in_window_flag_once() {
    let mut repo = repo_with(&["x", "y"]);
    for i in 0..10 {
        repo.add_banner_at(banner(&format!("b{i}"), "Monday"), "x".to_string(), stamp(10 + i)).unwrap();
    }
    for i in 0..9 {
        repo.add_banner_at(banner(&format!("b{i}"), "Monday"), "y".to_string(), stamp(10 + i)).unwrap();
    }
    repo.add_banner_at(banner("old", "Monday"), "y".to_string(), stamp(5)).unwrap();
    let reported = repo.check_for_attacks_at(&stamp(10));
    assert_eq!(reported, strings(&["x"]));
    assert_eq!(repo.flagged_accounts(), &strings(&["x"]));
}

#[test]
fn nine_actions_in_window_flag_nothing() {
    let mut repo = repo_with(&["x"]);
    for i in 0..9 {
        repo.add_banner_at(banner(&format!("b{i}"), "Monday"), "x".to_string(), stamp(20 + i)).unwrap();
    }
    assert!(repo.check_for_attacks_at(&stamp(20)).is_empty());
    assert!(repo.flagged_accounts().is_empty());
}

#[test]
fn repeated_sweep_reports_same_and_flags_once() {
    let mut repo = repo_with(&["x"]);
    for i in 0..12 {
        repo.delete_banner_at(format!("b{i}"), "x".to_string(), stamp(30 + i)).unwrap();
    }
    let first = repo.check_for_attacks_at(&stamp(30));
    let second = repo.check_for_attacks_at(&stamp(30));
    assert_eq!(first, second);
    assert_eq!(first, strings(&["x"]));
    assert_eq!(repo.flagged_accounts().len(), 1);
    assert_eq!(repo.audit_log().len(), 12);
}

#[test]
fn counting_helpers() {
    let users = strings(&["a", "b", "a", "c", "a", "b"]);
    assert_eq!(distinct_users(&users), strings(&["a", "b", "c"]));
    assert_eq!(occurrences(&users, &"a".to_string()), 3);
    assert_eq!(occurrences(&users, &"z".to_string()), 0);
    assert_eq!(suspects(&users, 2), strings(&["a", "b"]));
    assert_eq!(SUSPICIOUS_ACTION_COUNT, 10);
}

#[test]
fn timestamp_order() {
    assert!(text_at_least("2024-01-01T00:00:10Z", "2024-01-01T00:00:10Z"));
    assert!(text_at_least("2024-01-01T00:00:11Z", "2024-01-01T00:00:10Z"));
    assert!(!text_at_least("2024-01-01T00:00:09Z", "2024-01-01T00:00:10Z"));
    assert!(text_at_least("ab", "a"));
    assert!(!text_at_least("a", "ab"));
}

fn looks_like_rfc3339(s: &str) -> bool {
    let b = s.as_bytes();
    b.len() == 20 && b[4] == b'-' && b[7] == b'-' && b[10] == b'T' && b[13] == b':' && b[16] == b':' && b[19] == b'Z'
}

#[test]
fn clock_timestamps_are_rfc3339() {
    let now = current_timestamp().expect("the clock reads a writable year");
    assert!(looks_like_rfc3339(&now), "{now}");
    let mut repo = repo_with(&["a"]);
    assert_eq!(repo.add_banner(banner("X", "Monday"), "a".to_string()), Ok(()));
    assert_eq!(repo.update_banner_current_episodes("X".to_string(), 7, "a".to_string()), Ok(()));
    assert_eq!(repo.update_banner_total_episodes("X".to_string(), 9, "a".to_string()), Ok(()));
    assert_eq!(repo.update_banner_release_day("X".to_string(), "Friday".to_string(), "a".to_string()), Ok(()));
    assert_eq!(repo.update_banner_release_time("X".to_string(), "09:00".to_string(), "a".to_string()), Ok(()));
    assert_eq!(repo.delete_banner("X".to_string(), "a".to_string()), Ok(()));
    assert_eq!(repo.audit_log().len(), 6);
    for e in repo.audit_log() {
        assert!(looks_like_rfc3339(&e.timestamp), "{}", e.timestamp);
    }
    assert!(repo.check_for_attacks().is_empty());
}

#[test]
fn clock_sweep_sees_recent_burst() {
    let mut repo = repo_with(&["x"]);
    for i in 0..10 {
        repo.add_banner(banner(&format!("b{i}"), "Monday"), "x".to_string()).unwrap();
    }
    assert_eq!(repo.check_for_attacks(), strings(&["x"]));
}

#[test]
fn restore_rebuilds_state_without_audit() {
    let mut repo = repo_with(&["a"]);
    assert_eq!(repo.restore_banner(banner("X", "Monday"), "a".to_string()), Ok(()));
    assert_eq!(repo.restore_banner(banner("X", "Monday"), "a".to_string()), Err(StoreError::Conflict));
    assert_eq!(repo.restore_banner(banner("X", "Monday"), "z".to_string()), Err(StoreError::UnknownAccount));
    assert_eq!(repo.audit_log().len(), 0);
    let entry = AuditEntry { user_name: "a".to_string(), action: AuditAction::Add, timestamp: stamp(1) };
    assert_eq!(repo.restore_log_entry(entry), Ok(()));
    assert_eq!(repo.audit_log().len(), 1);
    assert_eq!(repo.restore_flag("a".to_string()), Ok(()));
    assert_eq!(repo.restore_flag("a".to_string()), Ok(()));
    assert_eq!(repo.restore_flag("z".to_string()), Err(StoreError::UnknownAccount));
    assert_eq!(repo.flagged_accounts().len(), 1);
    assert_eq!(repo.banner_rows().len(), 1);
}

#[test]
fn role_codes_round_trip() {
    assert_eq!(Role::Admin.code(), 0);
    assert_eq!(Role::User.code(), 1);
    assert_eq!(Role::from_code(0), Some(Role::Admin));
    assert_eq!(Role::from_code(1), Some(Role::User));
    assert_eq!(Role::from_code(2), None);
    assert_eq!(StoreError::Conflict.message(), "a banner with this title already exists");
}

#[test]
fn sweep_window_is_one_interval_before_now() {
    let mut repo = repo_with(&["x", "y"]);
    for i in 0..10 {
        repo.add_banner_at(banner(&format!("b{i}"), "Monday"), "x".to_string(), stamp(10 + i)).unwrap();
    }
    for i in 0..10 {
        repo.add_banner_at(banner(&format!("b{i}"), "Monday"), "y".to_string(), stamp(i)).unwrap();
    }
    // 1_704_067_220 is 2024-01-01T00:00:20Z, so the window starts at 00:00:10.
    assert_eq!(repo.check_for_attacks_from(1_704_067_220), strings(&["x"]));
    assert_eq!(repo.flagged_accounts(), &strings(&["x"]));
    assert!(repo.check_for_attacks_from(1_704_067_230).is_empty());
    assert!(repo.check_for_attacks_from(i64::MIN).is_empty());
    assert_eq!(repo.flagged_accounts().len(), 1);
}

#[test]
fn fractional_stamps_count_in_their_second() {
    assert!(stamp_at_least("2024-01-01T00:00:10.500Z", "2024-01-01T00:00:10Z"));
    assert!(stamp_at_least("2024-01-01T00:00:10Z", "2024-01-01T00:00:10Z"));
    assert!(!stamp_at_least("2024-01-01T00:00:09.999Z", "2024-01-01T00:00:10Z"));
    let mut repo = repo_with(&["x"]);
    for i in 0..10 {
        let e = AuditEntry {
            user_name: "x".to_string(),
            action: AuditAction::Add,
            timestamp: format!("2024-01-01T00:00:10.{:03}Z", i + 1),
        };
        repo.restore_log_entry(e).unwrap();
    }
    assert_eq!(repo.check_for_attacks_at("2024-01-01T00:00:10Z"), strings(&["x"]));
}

#[test]
fn error_messages() {
    assert_eq!(StoreError::UnknownAccount.message(), "the account is not registered");
    assert_eq!(StoreError::ClockUnavailable.message(), "the clock gave no usable time");
}
