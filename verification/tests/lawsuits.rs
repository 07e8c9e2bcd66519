use courthouse::lawsuit::CreateRequest;
use courthouse::model::OpError;
use courthouse::store::Store;

fn request(plaintiff: u64, accused: u64, judge: u64) -> CreateRequest {
    CreateRequest {
        plaintiff,
        accused,
        judge,
        plaintiff_lawyer: None,
        accused_lawyer: None,
        reason: "noise".to_owned(),
    }
}

fn guild_of(store: &Store, guild: u64) -> &courthouse::model::GuildState {
    let i = store.find_index(guild).expect("guild record");
    &store.entries[i].1
}

#[test]
fn create_without_category_is_unconfigured() {
    let mut store = Store::new();
    let r = store.create_lawsuit_begin(1, true, &request(10, 11, 12));
    assert!(matches!(r, Err(OpError::Unconfigured)));
}

#[test]
fn create_after_category_succeeds_with_fresh_room() {
    let mut store = Store::new();
    assert_eq!(store.set_court_category(1, true, Some(77)), Ok(()));
    let plan = store
        .create_lawsuit_begin(1, true, &request(10, 11, 12))
        .expect("plan");
    assert_eq!(plan.category, 77);
    assert_eq!(plan.members, vec![10, 11, 12]);
    let room = store
        .create_lawsuit_finish(1, request(10, 11, 12), plan.lawsuit_id, Some(500))
        .expect("room");
    assert_eq!(room, 500);
    let st = guild_of(&store, 1);
    assert_eq!(st.lawsuits.len(), 1);
    assert_eq!(st.lawsuits[0].verdict, None);
    assert_eq!(st.lawsuits[0].court_room, 500);
    assert_eq!(st.lawsuits[0].judge, 12);
    assert_eq!(st.court_rooms.len(), 1);
    assert_eq!(st.court_rooms[0].channel_id, 500);
}

#[test]
fn plan_members_include_named_lawyers() {
    let mut store = Store::new();
    assert_eq!(store.set_court_category(1, true, Some(77)), Ok(()));
    let req = CreateRequest {
        plaintiff: 10,
        accused: 11,
        judge: 12,
        plaintiff_lawyer: Some(13),
        accused_lawyer: Some(14),
        reason: "contract".to_owned(),
    };
    let plan = store.create_lawsuit_begin(1, true, &req).expect("plan");
    assert_eq!(plan.members, vec![10, 11, 12, 13, 14]);
}

#[test]
fn create_without_authority_is_forbidden() {
    let mut store = Store::new();
    assert_eq!(store.set_court_category(1, true, Some(77)), Ok(()));
    let r = store.create_lawsuit_begin(1, false, &request(10, 11, 12));
    assert!(matches!(r, Err(OpError::Forbidden)));
}

#[test]
fn platform_failure_persists_nothing() {
    let mut store = Store::new();
    assert_eq!(store.set_court_category(1, true, Some(77)), Ok(()));
    let plan = store
        .create_lawsuit_begin(1, true, &request(10, 11, 12))
        .expect("plan");
    let r = store.create_lawsuit_finish(1, request(10, 11, 12), plan.lawsuit_id, None);
    assert!(matches!(r, Err(OpError::PlatformUnavailable)));
    let st = guild_of(&store, 1);
    assert!(st.lawsuits.is_empty());
    assert!(st.court_rooms.is_empty());
}

#[test]
fn set_category_rejects_non_category() {
    let mut store = Store::new();
    let r = store.set_court_category(1, true, None);
    assert!(matches!(r, Err(OpError::InvalidTarget)));
    let r = store.set_court_category(1, false, Some(77));
    assert!(matches!(r, Err(OpError::Forbidden)));
}

fn store_with_open_lawsuit(room: u64) -> Store {
    let mut store = Store::new();
    assert_eq!(store.set_court_category(1, true, Some(77)), Ok(()));
    let plan = store
        .create_lawsuit_begin(1, true, &request(10, 11, 12))
        .expect("plan");
    store
        .create_lawsuit_finish(1, request(10, 11, 12), plan.lawsuit_id, Some(room))
        .expect("room");
    store
}

#[test]
fn close_by_judge_succeeds() {
    let mut store = store_with_open_lawsuit(500);
    let r = store.close_lawsuit(1, 12, 500, "guilty".to_owned(), false);
    assert_eq!(r, Ok(()));
    let st = guild_of(&store, 1);
    assert_eq!(st.lawsuits[0].verdict.as_deref(), Some("guilty"));
}

#[test]
fn close_by_non_judge_without_override_is_forbidden() {
    let mut store = store_with_open_lawsuit(500);
    let r = store.close_lawsuit(1, 99, 500, "guilty".to_owned(), false);
    assert!(matches!(r, Err(OpError::Forbidden)));
    let st = guild_of(&store, 1);
    assert_eq!(st.lawsuits[0].verdict, None);
}

#[test]
fn close_with_override_succeeds_for_non_judge() {
    let mut store = store_with_open_lawsuit(500);
    let r = store.close_lawsuit(1, 99, 500, "dismissed".to_owned(), true);
    assert_eq!(r, Ok(()));
    let st = guild_of(&store, 1);
    assert_eq!(st.lawsuits[0].verdict.as_deref(), Some("dismissed"));
}

#[test]
fn close_on_closed_room_reports_no_active_lawsuit() {
    let mut store = store_with_open_lawsuit(500);
    assert_eq!(store.close_lawsuit(1, 12, 500, "guilty".to_owned(), false), Ok(()));
    let r = store.close_lawsuit(1, 12, 500, "again".to_owned(), false);
    assert!(matches!(r, Err(OpError::NoActiveLawsuit)));
}

#[test]
fn close_on_unknown_room_reports_no_active_lawsuit() {
    let mut store = store_with_open_lawsuit(500);
    let r = store.close_lawsuit(1, 12, 777, "guilty".to_owned(), false);
    assert!(matches!(r, Err(OpError::NoActiveLawsuit)));
}

#[test]
fn rooms_host_at_most_one_active_lawsuit() {
    let mut store = store_with_open_lawsuit(500);
    let plan = store
        .create_lawsuit_begin(1, true, &request(20, 21, 22))
        .expect("plan");
    store
        .create_lawsuit_finish(1, request(20, 21, 22), plan.lawsuit_id, Some(501))
        .expect("room");
    assert_eq!(store.close_lawsuit(1, 12, 500, "guilty".to_owned(), false), Ok(()));
    let st = guild_of(&store, 1);
    for room in [500u64, 501u64] {
        let active = st
            .lawsuits
            .iter()
            .filter(|l| l.court_room == room && l.verdict.is_none())
            .count();
        assert!(active <= 1);
    }
}
