use acapair_follow_ban_api::operations::{
    ban, change_username, create, delete, follow, is_banned, is_follower, search_id,
    search_username, unban, unfollow,
};
use acapair_follow_ban_api::store::ChannelStore;

#[test]
fn test_create() {
    let mut connection = ChannelStore::new();

    let name = &"Ahmet".to_string();
    let created = create(name, &mut connection);

    assert_eq!(created.is_ok(), true);
}

#[test]
fn test_search_username() {
    let mut connection = ChannelStore::new();
    let name = &"Ahmet".to_string();

    let created = create(name, &mut connection);
    let searched = search_username(name, &connection);

    assert_eq!(created.ok(), searched);
}

#[test]
fn test_search_id() {
    let mut connection = ChannelStore::new();
    let name = &"Ahmet".to_string();

    let created = create(name, &mut connection);
    let id = created.clone().unwrap().id;
    let searched = search_id(id, &connection);

    assert_eq!(created.ok(), searched);
}

#[test]
fn test_delete() {
    let mut connection = ChannelStore::new();
    let name = &"Ahmet".to_string();

    let created = create(name, &mut connection);
    let deleted = delete(name, &mut connection);

    assert_eq!(created, deleted);
    assert_eq!(search_username(name, &connection).is_none(), true);
}

#[test]
fn test_change_username() {
    let mut connection = ChannelStore::new();
    let name = &"Ahmet".to_string();

    let created = create(name, &mut connection).unwrap();
    let changed = change_username(name, &"Kaan".to_string(), &mut connection).unwrap();

    assert_eq!(created.id, changed.clone().id);
    assert_eq!(changed.username, "Kaan");
}

#[test]
fn test_follow() {
    let mut connection = ChannelStore::new();
    let name_follower = &"Ahmet".to_string();
    let name_followed = &"Kaan".to_string();

    let _follower = create(name_follower, &mut connection).unwrap();
    let _followed = create(name_followed, &mut connection).unwrap();

    let mut follower = follow(name_follower, name_followed, &mut connection).unwrap();
    let mut followed = search_username(name_followed, &connection).unwrap();

    assert_eq!(followed.follower_list.pop().unwrap(), follower.id);
    assert_eq!(follower.followed_list.pop().unwrap(), followed.id);
}

#[test]
fn test_unfollow() {
    let mut connection = ChannelStore::new();
    let name_follower = &"Ahmet".to_string();
    let name_followed = &"Kaan".to_string();

    let _follower = create(name_follower, &mut connection).unwrap();
    let _followed = create(name_followed, &mut connection).unwrap();

    let mut follower = follow(name_follower, name_followed, &mut connection).unwrap();
    let mut followed = search_username(name_followed, &connection).unwrap();

    assert_eq!(followed.follower_list.pop().unwrap(), follower.id);
    assert_eq!(follower.followed_list.pop().unwrap(), followed.id);

    follower = unfollow(name_follower, name_followed, &mut connection).unwrap();
    followed = search_username(name_followed, &connection).unwrap();

    assert_eq!(followed.follower_list.pop().is_none(), true);
    assert_eq!(follower.followed_list.pop().is_none(), true);
}

#[test]
fn test_ban() {
    let mut connection = ChannelStore::new();
    let name_victim = &"Ahmet".to_string();
    let name_judge = &"Kaan".to_string();

    let _victim = create(name_victim, &mut connection).unwrap();
    let _judge = create(name_judge, &mut connection).unwrap();

    let mut victim = ban(name_judge, name_victim, &mut connection).unwrap();
    let mut judge = search_username(name_judge, &connection).unwrap();

    assert_eq!(victim.banned_from_list.pop().unwrap(), judge.id);
    assert_eq!(judge.banned_list.pop().unwrap(), victim.id);
}

#[test]
fn test_unban() {
    let mut connection = ChannelStore::new();
    let name_victim = &"Ahmet".to_string();
    let name_judge = &"Kaan".to_string();

    let _victim = create(name_victim, &mut connection).unwrap();
    let _judge = create(name_judge, &mut connection).unwrap();

    let mut victim = ban(name_judge, name_victim, &mut connection).unwrap();
    let mut judge = search_username(name_judge, &connection).unwrap();

    assert_eq!(victim.banned_from_list.pop().unwrap(), judge.id);
    assert_eq!(judge.banned_list.pop().unwrap(), victim.id);

    victim = unban(name_judge, name_victim, &mut connection).unwrap();
    judge = search_username(name_judge, &connection).unwrap();

    assert_eq!(victim.banned_from_list.pop().is_none(), true);
    assert_eq!(judge.banned_list.pop().is_none(), true);
}

#[test]
fn test_delete_follower() {
    let mut connection = ChannelStore::new();
    let name_follower = &"Ahmet".to_string();
    let name_followed = &"Kaan".to_string();

    let _follower = create(name_follower, &mut connection).unwrap();
    let _followed = create(name_followed, &mut connection).unwrap();

    let mut follower = follow(name_follower, name_followed, &mut connection).unwrap();
    let mut followed = search_username(name_followed, &connection).unwrap();

    assert_eq!(followed.follower_list.pop().unwrap(), follower.id);
    assert_eq!(follower.followed_list.pop().unwrap(), followed.id);

    follower = delete(name_follower, &mut connection).unwrap();
    followed = search_username(name_followed, &connection).unwrap();

    assert_eq!(followed.follower_list.pop().is_none(), true);
    assert_eq!(follower.followed_list.pop().is_none(), true);
}

#[test]
fn test_delete_followed() {
    let mut connection = ChannelStore::new();
    let name_follower = &"Ahmet".to_string();
    let name_followed = &"Kaan".to_string();

    let _follower = create(name_follower, &mut connection).unwrap();
    let _followed = create(name_followed, &mut connection).unwrap();

    let mut follower = follow(name_follower, name_followed, &mut connection).unwrap();
    let mut followed = search_username(name_followed, &connection).unwrap();

    assert_eq!(followed.follower_list.pop().unwrap(), follower.id);
    assert_eq!(follower.followed_list.pop().unwrap(), followed.id);

    followed = delete(name_followed, &mut connection).unwrap();
    follower = search_username(name_follower, &connection).unwrap();

    assert_eq!(followed.follower_list.pop().is_none(), true);
    assert_eq!(follower.followed_list.pop().is_none(), true);
}

#[test]
fn test_delete_victim() {
    let mut connection = ChannelStore::new();
    let name_victim = &"Ahmet".to_string();
    let name_judge = &"Kaan".to_string();

    let _victim = create(name_victim, &mut connection).unwrap();
    let _judge = create(name_judge, &mut connection).unwrap();

    let mut victim = ban(name_judge, name_victim, &mut connection).unwrap();
    let mut judge = search_username(name_judge, &connection).unwrap();

    assert_eq!(judge.banned_list.pop().unwrap(), victim.id);
    assert_eq!(victim.banned_from_list.pop().unwrap(), judge.id);

    victim = delete(name_victim, &mut connection).unwrap();
    judge = search_username(name_judge, &connection).unwrap();

    assert_eq!(judge.banned_list.pop().is_none(), true);
    assert_eq!(victim.banned_from_list.pop().is_none(), true);
}

#[test]
fn test_delete_judge() {
    let mut connection = ChannelStore::new();
    let name_victim = &"Ahmet".to_string();
    let name_judge = &"Kaan".to_string();

    let _victim = create(name_victim, &mut connection).unwrap();
    let _judge = create(name_judge, &mut connection).unwrap();

    let mut victim = ban(name_judge, name_victim, &mut connection).unwrap();
    let mut judge = search_username(name_judge, &connection).unwrap();

    assert_eq!(judge.banned_list.pop().unwrap(), victim.id);
    assert_eq!(victim.banned_from_list.pop().unwrap(), judge.id);

    judge = delete(name_judge, &mut connection).unwrap();
    victim = search_username(name_victim, &connection).unwrap();

    assert_eq!(judge.banned_list.pop().is_none(), true);
    assert_eq!(victim.banned_from_list.pop().is_none(), true);
}

#[test]
fn test_follow_already_follower() {
    let mut connection = ChannelStore::new();
    let name_follower = &"Ahmet".to_string();
    let name_followed = &"Kaan".to_string();

    let _follower = create(name_follower, &mut connection).unwrap();
    let _followed = create(name_followed, &mut connection).unwrap();

    let mut follower = follow(name_follower, name_followed, &mut connection).unwrap();
    let mut followed = search_username(name_followed, &connection).unwrap();

    assert_eq!(followed.follower_list.pop().unwrap(), follower.id);
    assert_eq!(follower.followed_list.pop().unwrap(), followed.id);
    assert_eq!(follow(name_follower, name_followed, &mut connection).is_err(), true);
}

#[test]
fn test_unfollow_already_nonfollower() {
    let mut connection = ChannelStore::new();
    let name_follower = &"Ahmet".to_string();
    let name_followed = &"Kaan".to_string();

    let _follower = create(name_follower, &mut connection).unwrap();
    let _followed = create(name_followed, &mut connection).unwrap();

    assert_eq!(unfollow(name_follower, name_followed, &mut connection).is_err(), true);
}

#[test]
fn test_ban_already_banned() {
    let mut connection = ChannelStore::new();
    let name_victim = &"Ahmet".to_string();
    let name_judge = &"Kaan".to_string();

    let _victim = create(name_victim, &mut connection).unwrap();
    let _judge = create(name_judge, &mut connection).unwrap();

    let mut victim = ban(name_judge, name_victim, &mut connection).unwrap();
    let mut judge = search_username(name_judge, &connection).unwrap();

    assert_eq!(victim.banned_from_list.pop().unwrap(), judge.id);
    assert_eq!(judge.banned_list.pop().unwrap(), victim.id);
    assert_eq!(ban(name_judge, name_victim, &mut connection).is_err(), true);
}

#[test]
fn test_unban_already_nonbanned() {
    let mut connection = ChannelStore::new();
    let name_victim = &"Ahmet".to_string();
    let name_judge = &"Kaan".to_string();

    let _victim = create(name_victim, &mut connection).unwrap();
    let _judge = create(name_judge, &mut connection).unwrap();

    assert_eq!(unban(name_judge, name_victim, &mut connection).is_err(), true);
}

#[test]
fn test_delete_noncreated() {
    let mut connection = ChannelStore::new();
    let name = &"Ahmet".to_string();

    assert_eq!(delete(name, &mut connection).is_err(), true);
}

#[test]
fn test_create_already_created() {
    let mut connection = ChannelStore::new();

    let name = &"Ahmet".to_string();
    let created = create(name, &mut connection);

    assert_eq!(created.is_ok(), true);
    assert_eq!(create(name, &mut connection).is_err(), true);
}

#[test]
fn test_search_username_noncreated() {
    let mut connection = ChannelStore::new();
    let name = &"Ahmet".to_string();

    assert_eq!(search_username(name, &connection).is_none(), true);
}

#[test]
fn test_search_id_noncreated() {
    let mut connection = ChannelStore::new();

    assert_eq!(search_id(0, &connection).is_none(), true);
}

#[test]
fn test_is_follower_already_follower() {
    let mut connection = ChannelStore::new();
    let name_follower = &"Ahmet".to_string();
    let name_followed = &"Kaan".to_string();

    let _follower = create(name_follower, &mut connection).unwrap();
    let _followed = create(name_followed, &mut connection).unwrap();

    let _follower = follow(name_follower, name_followed, &mut connection).unwrap();

    assert_eq!(is_follower(name_follower, name_followed, &connection), true);
}

#[test]
fn test_is_follower_nonfollower() {
    let mut connection = ChannelStore::new();
    let name_follower = &"Ahmet".to_string();
    let name_followed = &"Kaan".to_string();

    let _follower = create(name_follower, &mut connection).unwrap();
    let _followed = create(name_followed, &mut connection).unwrap();

    assert_eq!(is_follower(name_follower, name_followed, &connection), false);
}

#[test]
fn test_is_banned_already_banned() {
    let mut connection = ChannelStore::new();
    let name_victim = &"Ahmet".to_string();
    let name_judge = &"Kaan".to_string();

    let _victim = create(name_victim, &mut connection).unwrap();
    let _judge = create(name_judge, &mut connection).unwrap();

    let _victim = ban(name_judge, name_victim, &mut connection).unwrap();

    assert_eq!(is_banned(name_victim, name_judge, &connection), true);
}

#[test]
fn test_is_banned_nonbanned() {
    let mut connection = ChannelStore::new();
    let name_victim = &"Ahmet".to_string();
    let name_judge = &"Kaan".to_string();

    let _victim = create(name_victim, &mut connection).unwrap();
    let _judge = create(name_judge, &mut connection).unwrap();

    assert_eq!(is_banned(name_victim, name_judge, &connection), false);
}
