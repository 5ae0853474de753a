use acapair_follow_ban_api::channel::OpError;
use acapair_follow_ban_api::edge_ops::{add_id_to_vector, remove_id_from_vector};
use acapair_follow_ban_api::operations::{
    ban, change_username, create, delete, follow, is_banned, is_follower, search_id,
    search_username, unfollow,
};
use acapair_follow_ban_api::relations::{add_follower, remove_follower};
use acapair_follow_ban_api::store::ChannelStore;

#[test]
fn scenario_follow_ban_delete() {
    let mut store = ChannelStore::new();
    let ahmet = &"Ahmet".to_string();
    let kaan = &"Kaan".to_string();

    let ahmet_rec = create(ahmet, &mut store).unwrap();
    let kaan_rec = create(kaan, &mut store).unwrap();

    follow(ahmet, kaan, &mut store).unwrap();
    let kaan_after = search_username(kaan, &store).unwrap();
    let ahmet_after = search_username(ahmet, &store).unwrap();
    assert_eq!(kaan_after.follower_list, vec![ahmet_rec.id]);
    assert_eq!(ahmet_after.followed_list, vec![kaan_rec.id]);

    ban(kaan, ahmet, &mut store).unwrap();
    let ahmet_after = search_username(ahmet, &store).unwrap();
    let kaan_after = search_username(kaan, &store).unwrap();
    assert!(ahmet_after.banned_from_list.contains(&kaan_rec.id));
    assert!(kaan_after.banned_list.contains(&ahmet_rec.id));

    delete(ahmet, &mut store).unwrap();
    let kaan_after = search_username(kaan, &store).unwrap();
    assert!(kaan_after.follower_list.is_empty());
    assert!(kaan_after.banned_list.is_empty());
    assert!(search_username(ahmet, &store).is_none());
}

#[test]
fn symmetry_after_follow() {
    let mut store = ChannelStore::new();
    let a = &"Ahmet".to_string();
    let b = &"Kaan".to_string();
    let a_rec = create(a, &mut store).unwrap();
    let b_rec = create(b, &mut store).unwrap();

    follow(a, b, &mut store).unwrap();

    assert_eq!(is_follower(a, b, &store), true);
    let b_after = search_username(b, &store).unwrap();
    let a_after = search_username(a, &store).unwrap();
    assert!(b_after.follower_list.contains(&a_rec.id));
    assert!(a_after.followed_list.contains(&b_rec.id));
}

#[test]
fn follow_twice_keeps_state() {
    let mut store = ChannelStore::new();
    let a = &"Ahmet".to_string();
    let b = &"Kaan".to_string();
    create(a, &mut store).unwrap();
    create(b, &mut store).unwrap();

    assert!(follow(a, b, &mut store).is_ok());
    let a_once = search_username(a, &store).unwrap();
    let b_once = search_username(b, &store).unwrap();

    assert_eq!(follow(a, b, &mut store), Err(OpError::AlreadyExists));
    let a_twice = search_username(a, &store).unwrap();
    let b_twice = search_username(b, &store).unwrap();
    assert_eq!(a_once, a_twice);
    assert_eq!(b_once, b_twice);
}

#[test]
fn follow_unfollow_round_trip_with_other_edges() {
    let mut store = ChannelStore::new();
    let a = &"Ahmet".to_string();
    let b = &"Kaan".to_string();
    let c = &"Deniz".to_string();
    create(a, &mut store).unwrap();
    create(b, &mut store).unwrap();
    create(c, &mut store).unwrap();

    // a pre-existing edge that must survive untouched
    follow(c, b, &mut store).unwrap();
    let a_before = search_username(a, &store).unwrap();
    let b_before = search_username(b, &store).unwrap();

    follow(a, b, &mut store).unwrap();
    unfollow(a, b, &mut store).unwrap();

    let a_after = search_username(a, &store).unwrap();
    let b_after = search_username(b, &store).unwrap();
    assert_eq!(a_before, a_after);
    assert_eq!(b_before, b_after);
}

#[test]
fn cascade_on_mixed_relations() {
    let mut store = ChannelStore::new();
    let a = &"Ahmet".to_string();
    let b = &"Kaan".to_string();
    let c = &"Deniz".to_string();
    create(a, &mut store).unwrap();
    let b_rec = create(b, &mut store).unwrap();
    create(c, &mut store).unwrap();

    follow(a, b, &mut store).unwrap();
    ban(c, b, &mut store).unwrap();

    delete(b, &mut store).unwrap();

    let a_after = search_username(a, &store).unwrap();
    let c_after = search_username(c, &store).unwrap();
    assert!(!a_after.followed_list.contains(&b_rec.id));
    assert!(!c_after.banned_list.contains(&b_rec.id));
    assert!(search_username(b, &store).is_none());
    assert!(search_id(b_rec.id, &store).is_none());
}

#[test]
fn rename_preserves_edges() {
    let mut store = ChannelStore::new();
    let a = &"Ahmet".to_string();
    let b = &"Kaan".to_string();
    let newname = &"Deniz".to_string();
    create(a, &mut store).unwrap();
    let b_rec = create(b, &mut store).unwrap();

    follow(a, b, &mut store).unwrap();
    let renamed = change_username(b, newname, &mut store).unwrap();

    assert_eq!(renamed.id, b_rec.id);
    let a_after = search_username(a, &store).unwrap();
    assert!(a_after.followed_list.contains(&b_rec.id));
    assert_eq!(is_follower(a, newname, &store), true);
    assert!(search_username(b, &store).is_none());
    assert_eq!(search_username(newname, &store).unwrap().id, b_rec.id);
}

#[test]
fn rename_to_taken_username_fails() {
    let mut store = ChannelStore::new();
    let a = &"Ahmet".to_string();
    let b = &"Kaan".to_string();
    create(a, &mut store).unwrap();
    create(b, &mut store).unwrap();

    assert_eq!(change_username(a, b, &mut store), Err(OpError::AlreadyExists));
    assert_eq!(change_username(&"Deniz".to_string(), a, &mut store), Err(OpError::NotFound));
    // renaming to one's own current name is allowed
    assert!(change_username(a, a, &mut store).is_ok());
}

#[test]
fn error_kinds() {
    let mut store = ChannelStore::new();
    let a = &"Ahmet".to_string();
    let b = &"Kaan".to_string();
    let ghost_name = &"Deniz".to_string();
    create(a, &mut store).unwrap();
    create(b, &mut store).unwrap();

    assert_eq!(create(a, &mut store), Err(OpError::AlreadyExists));
    assert_eq!(follow(a, ghost_name, &mut store), Err(OpError::NotFound));
    assert_eq!(follow(ghost_name, b, &mut store), Err(OpError::NotFound));
    assert_eq!(follow(a, a, &mut store), Err(OpError::SelfReference));
    assert_eq!(ban(b, b, &mut store), Err(OpError::SelfReference));
    assert_eq!(unfollow(a, b, &mut store), Err(OpError::NotConnected));
    assert_eq!(delete(ghost_name, &mut store), Err(OpError::NotFound));

    follow(a, b, &mut store).unwrap();
    assert_eq!(follow(a, b, &mut store), Err(OpError::AlreadyExists));
    assert_eq!(ban(b, ghost_name, &mut store), Err(OpError::NotFound));
}

#[test]
fn is_banned_only_named_direction() {
    let mut store = ChannelStore::new();
    let victim = &"Ahmet".to_string();
    let judge = &"Kaan".to_string();
    create(victim, &mut store).unwrap();
    create(judge, &mut store).unwrap();

    ban(judge, victim, &mut store).unwrap();

    assert_eq!(is_banned(victim, judge, &store), true);
    // the relation is directed: the judge is not banned by the victim
    assert_eq!(is_banned(judge, victim, &store), false);
}

#[test]
fn add_id_exact_values() {
    let list: Vec<u64> = vec![1, 2];
    assert_eq!(add_id_to_vector(5, &list), Some(vec![1, 2, 5]));
    assert_eq!(add_id_to_vector(2, &list), None);
    assert_eq!(list, vec![1, 2]);
}

#[test]
fn remove_id_exact_values() {
    let list: Vec<u64> = vec![1, 2, 3];
    assert_eq!(remove_id_from_vector(2, &list), Some(vec![1, 3]));
    assert_eq!(remove_id_from_vector(9, &list), None);
    assert_eq!(list, vec![1, 2, 3]);
}

#[test]
fn half_applied_relation_is_retry_safe() {
    let mut store = ChannelStore::new();
    let a = &"Ahmet".to_string();
    let b = &"Kaan".to_string();
    let a_rec = create(a, &mut store).unwrap();
    create(b, &mut store).unwrap();

    // apply only the first half of a follow, as a crash between the two
    // persists would leave it
    add_follower(a, b, &mut store).unwrap();
    let b_half = search_username(b, &store).unwrap();
    assert!(b_half.follower_list.contains(&a_rec.id));

    // retrying the full operation reports the first half as already applied
    assert_eq!(follow(a, b, &mut store), Err(OpError::AlreadyExists));

    // the remaining half can still be unwound and re-applied cleanly
    remove_follower(a, b, &mut store).unwrap();
    assert!(follow(a, b, &mut store).is_ok());
    assert_eq!(is_follower(a, b, &store), true);
}
