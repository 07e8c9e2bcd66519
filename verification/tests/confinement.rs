use courthouse::lawsuit::CreateRequest;
use courthouse::model::OpError;
use courthouse::store::Store;

fn guild_of(store: &Store, guild: u64) -> &courthouse::model::GuildState {
    let i = store.find_index(guild).expect("guild record");
    &store.entries[i].1
}

#[test]
fn arrest_without_role_is_unconfigured() {
    let mut store = Store::new();
    let r = store.arrest(1, true, 42);
    assert!(matches!(r, Err(OpError::Unconfigured)));
}

#[test]
fn arrest_without_authority_is_forbidden() {
    let mut store = Store::new();
    assert_eq!(store.set_confinement_role(1, true, 9), Ok(()));
    let r = store.arrest(1, false, 42);
    assert!(matches!(r, Err(OpError::Forbidden)));
}

#[test]
fn arrest_then_rejoin_reassigns_role() {
    let mut store = Store::new();
    assert_eq!(store.set_confinement_role(1, true, 9), Ok(()));
    assert_eq!(store.arrest(1, true, 42), Ok(9));
    assert!(store.find_confinement_entry(1, 42));
    assert!(!store.find_confinement_entry(1, 43));
    assert!(!store.find_confinement_entry(2, 42));
    // The platform may have stripped the role when the member left; the
    // stored entry alone decides, so the rejoin reassigns the role.
    assert_eq!(store.member_joined(1, 42), Some(9));
    // A second rejoin reassigns it again.
    assert_eq!(store.member_joined(1, 42), Some(9));
}

#[test]
fn release_then_rejoin_does_not_reassign() {
    let mut store = Store::new();
    assert_eq!(store.set_confinement_role(1, true, 9), Ok(()));
    assert_eq!(store.arrest(1, true, 42), Ok(9));
    assert_eq!(store.release(1, true, 42), Ok(9));
    assert!(!store.find_confinement_entry(1, 42));
    assert_eq!(store.member_joined(1, 42), None);
}

#[test]
fn rejoin_without_entry_is_a_noop() {
    let mut store = Store::new();
    assert_eq!(store.member_joined(1, 42), None);
    assert_eq!(store.set_confinement_role(1, true, 9), Ok(()));
    assert_eq!(store.member_joined(1, 42), None);
}

#[test]
fn arrest_records_each_member_once() {
    let mut store = Store::new();
    assert_eq!(store.set_confinement_role(1, true, 9), Ok(()));
    assert_eq!(store.arrest(1, true, 42), Ok(9));
    assert_eq!(store.arrest(1, true, 42), Ok(9));
    assert_eq!(guild_of(&store, 1).prisoners, vec![42]);
}

#[test]
fn release_without_role_is_unconfigured() {
    let mut store = Store::new();
    let r = store.release(1, true, 42);
    assert!(matches!(r, Err(OpError::Unconfigured)));
}

#[test]
fn release_of_unknown_member_still_succeeds() {
    let mut store = Store::new();
    assert_eq!(store.set_confinement_role(1, true, 9), Ok(()));
    assert_eq!(store.release(1, true, 42), Ok(9));
    assert!(guild_of(&store, 1).prisoners.is_empty());
}

#[test]
fn clear_is_total() {
    let mut store = Store::new();
    assert_eq!(store.set_court_category(1, true, Some(77)), Ok(()));
    assert_eq!(store.set_confinement_role(1, true, 9), Ok(()));
    let plan = store
        .create_lawsuit_begin(
            1,
            true,
            &CreateRequest {
                plaintiff: 10,
                accused: 11,
                judge: 12,
                plaintiff_lawyer: None,
                accused_lawyer: None,
                reason: "noise".to_owned(),
            },
        )
        .expect("plan");
    store
        .create_lawsuit_finish(
            1,
            CreateRequest {
                plaintiff: 10,
                accused: 11,
                judge: 12,
                plaintiff_lawyer: None,
                accused_lawyer: None,
                reason: "noise".to_owned(),
            },
            plan.lawsuit_id,
            Some(500),
        )
        .expect("room");
    assert_eq!(store.arrest(1, true, 42), Ok(9));

    assert_eq!(store.clear(1, true), Ok(()));
    assert!(store.find_index(1).is_none());

    // Find-or-insert after the clear yields a fresh empty record.
    let i = store.find_or_insert_guild_state(1);
    let st = &store.entries[i].1;
    assert_eq!(st.court_category, None);
    assert_eq!(st.prison_role, None);
    assert!(st.court_rooms.is_empty());
    assert!(st.lawsuits.is_empty());
    assert!(st.prisoners.is_empty());
}

#[test]
fn clear_without_authority_is_forbidden() {
    let mut store = Store::new();
    assert_eq!(store.set_confinement_role(1, true, 9), Ok(()));
    let r = store.clear(1, false);
    assert!(matches!(r, Err(OpError::Forbidden)));
    assert!(store.find_index(1).is_some());
}

#[test]
fn guilds_are_independent() {
    let mut store = Store::new();
    assert_eq!(store.set_confinement_role(1, true, 9), Ok(()));
    assert_eq!(store.set_confinement_role(2, true, 8), Ok(()));
    assert_eq!(store.arrest(1, true, 42), Ok(9));
    // The arrest in guild 1 does not confine the member in guild 2.
    assert_eq!(store.member_joined(2, 42), None);
    // Clearing guild 1 leaves guild 2's configuration in place.
    assert_eq!(store.clear(1, true), Ok(()));
    assert_eq!(store.arrest(2, true, 43), Ok(8));
    assert_eq!(store.member_joined(2, 43), Some(8));
    assert_eq!(store.member_joined(1, 42), None);
}

#[test]
fn find_or_insert_returns_existing_record() {
    let mut store = Store::new();
    assert_eq!(store.set_confinement_role(1, true, 9), Ok(()));
    let i = store.find_or_insert_guild_state(1);
    assert_eq!(store.entries[i].1.prison_role, Some(9));
    assert_eq!(store.entries.len(), 1);
}
