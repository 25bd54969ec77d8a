use chat_sync::cache::Cache;
use chat_sync::model::{Chat, Message, User};

fn user(id: u64, name: &str, seen: u64) -> User {
    User {
        id,
        display_name: name.as_bytes().to_vec(),
        profile_image: Vec::new(),
        last_message_seen_ts: seen,
    }
}

fn msg(id: u64, chat_id: u64, creator: Option<u64>, text: &str, ts: u64) -> Message {
    Message { id, chat_id, creator, content: text.as_bytes().to_vec(), created_at: ts }
}

fn chat(id: u64, name: &str, users: Vec<User>, messages: Vec<Message>, last_ts: u64) -> Chat {
    Chat { id, name: name.as_bytes().to_vec(), users, messages, last_message_ts: last_ts }
}

fn general() -> Chat {
    chat(
        1,
        "general",
        vec![user(10, "a", 0), user(11, "b", 0)],
        vec![msg(100, 1, Some(10), "m1", 100), msg(101, 1, Some(11), "m2", 200), msg(
            102,
            1,
            Some(10),
            "m3",
            300,
        )],
        300,
    )
}

#[test]
fn replace_is_wholesale() {
    let mut cache = Cache::new();
    cache.replace_chats(vec![general(), chat(2, "other", vec![], vec![], 50)]);
    assert_eq!(cache.chats.len(), 2);
    cache.replace_chats(vec![chat(3, "only", vec![], vec![], 7)]);
    assert_eq!(cache.chats.len(), 1);
    assert_eq!(cache.chats[0].id, 3);
}

#[test]
fn new_message_appends_and_raises_ts() {
    let mut cache = Cache::new();
    cache.replace_chats(vec![general()]);
    let applied = cache.apply_new_message(msg(103, 1, Some(11), "m4", 400));
    assert!(applied);
    let c = &cache.chats[0];
    assert_eq!(c.messages.len(), 4);
    assert_eq!(c.messages[3].id, 103);
    assert_eq!(c.last_message_ts, 400);
}

#[test]
fn new_message_for_unknown_chat_is_dropped() {
    let mut cache = Cache::new();
    cache.replace_chats(vec![general()]);
    let applied = cache.apply_new_message(msg(103, 99, None, "x", 400));
    assert!(!applied);
    assert_eq!(cache.chats[0].messages.len(), 3);
    assert_eq!(cache.chats[0].last_message_ts, 300);
}

#[test]
fn duplicate_message_id_is_dropped() {
    let mut cache = Cache::new();
    cache.replace_chats(vec![general()]);
    let applied = cache.apply_new_message(msg(101, 1, Some(11), "again", 400));
    assert!(!applied);
    assert_eq!(cache.chats[0].messages.len(), 3);
    assert_eq!(cache.chats[0].last_message_ts, 300);
}

#[test]
fn ordered_pushes_keep_window_sorted() {
    let mut cache = Cache::new();
    cache.replace_chats(vec![general()]);
    assert!(cache.apply_new_message(msg(103, 1, None, "x", 300)));
    assert!(cache.apply_new_message(msg(104, 1, None, "y", 350)));
    assert!(cache.apply_new_message(msg(105, 1, None, "z", 350)));
    let ts: Vec<u64> = cache.chats[0].messages.iter().map(|m| m.created_at).collect();
    assert_eq!(ts, vec![100, 200, 300, 300, 350, 350]);
    assert_eq!(cache.chats[0].last_message_ts, 350);
}

#[test]
fn new_message_promotes_chat_past_older_ones() {
    let mut cache = Cache::new();
    cache.replace_chats(vec![
        chat(1, "one", vec![], vec![], 500),
        chat(2, "two", vec![], vec![], 400),
        chat(3, "three", vec![], vec![], 300),
    ]);
    assert!(cache.apply_new_message(msg(7, 3, None, "up", 450)));
    let ids: Vec<u64> = cache.chats.iter().map(|c| c.id).collect();
    assert_eq!(ids, vec![1, 3, 2]);
}

#[test]
fn new_message_demotes_chat_past_newer_ones() {
    // A merged message older than the chat's cached activity lowers
    // last_message_ts, and the chat sinks to keep the list sorted.
    let mut cache = Cache::new();
    cache.replace_chats(vec![
        chat(1, "one", vec![], vec![], 500),
        chat(2, "two", vec![], vec![], 400),
    ]);
    assert!(cache.apply_new_message(msg(7, 1, None, "old", 100)));
    let ids: Vec<u64> = cache.chats.iter().map(|c| c.id).collect();
    assert_eq!(ids, vec![2, 1]);
    assert_eq!(cache.chats[1].last_message_ts, 100);
    let ts: Vec<u64> = cache.chats.iter().map(|c| c.last_message_ts).collect();
    assert_eq!(ts, vec![400, 100]);
}

#[test]
fn demotion_stops_at_the_first_tie() {
    let mut cache = Cache::new();
    cache.replace_chats(vec![
        chat(1, "one", vec![], vec![], 500),
        chat(2, "two", vec![], vec![], 400),
        chat(3, "three", vec![], vec![], 300),
    ]);
    // The first chat drops to 300: it sinks past the strictly newer chat
    // at 400 but stays before the tie at 300.
    assert!(cache.apply_new_message(msg(7, 1, None, "old", 300)));
    let ids: Vec<u64> = cache.chats.iter().map(|c| c.id).collect();
    assert_eq!(ids, vec![2, 1, 3]);
}

#[test]
fn promotion_never_overtakes_ties() {
    let mut cache = Cache::new();
    cache.replace_chats(vec![
        chat(1, "one", vec![], vec![], 500),
        chat(2, "two", vec![], vec![], 500),
        chat(3, "three", vec![], vec![], 300),
    ]);
    // The promoted chat reaches exactly the activity time of the ties and
    // must stay behind both of them.
    assert!(cache.apply_new_message(msg(7, 3, None, "up", 500)));
    let ids: Vec<u64> = cache.chats.iter().map(|c| c.id).collect();
    assert_eq!(ids, vec![1, 2, 3]);
}

#[test]
fn history_page_prepends_without_touching_last_ts() {
    // A chat holds messages at 100, 200, 300; the page older than 100
    // returns 50 and 80; the window becomes 50..300 and the activity time
    // stays 300.
    let mut cache = Cache::new();
    cache.replace_chats(vec![general()]);
    let page = vec![msg(90, 1, Some(10), "old1", 50), msg(91, 1, Some(11), "old2", 80)];
    let applied = cache.prepend_page(1, page);
    assert!(applied);
    let c = &cache.chats[0];
    let ts: Vec<u64> = c.messages.iter().map(|m| m.created_at).collect();
    assert_eq!(ts, vec![50, 80, 100, 200, 300]);
    assert_eq!(c.last_message_ts, 300);
    // Order and content of the previously loaded window are untouched.
    assert_eq!(c.messages[2].id, 100);
    assert_eq!(c.messages[3].id, 101);
    assert_eq!(c.messages[4].id, 102);
}

#[test]
fn history_page_for_unknown_chat_is_dropped() {
    let mut cache = Cache::new();
    cache.replace_chats(vec![general()]);
    let applied = cache.prepend_page(9, vec![msg(90, 9, None, "old", 50)]);
    assert!(!applied);
    assert_eq!(cache.chats[0].messages.len(), 3);
}

#[test]
fn user_joined_is_idempotent() {
    // Participants [a, b]; a UserJoined for a changes nothing.
    let mut cache = Cache::new();
    cache.replace_chats(vec![general()]);
    let applied = cache.apply_user_joined(1, user(10, "a", 0));
    assert!(!applied);
    let ids: Vec<u64> = cache.chats[0].users.iter().map(|u| u.id).collect();
    assert_eq!(ids, vec![10, 11]);
}

#[test]
fn user_joined_appends_new_participant() {
    let mut cache = Cache::new();
    cache.replace_chats(vec![general()]);
    let applied = cache.apply_user_joined(1, user(12, "c", 0));
    assert!(applied);
    let ids: Vec<u64> = cache.chats[0].users.iter().map(|u| u.id).collect();
    assert_eq!(ids, vec![10, 11, 12]);
}

#[test]
fn read_receipt_is_last_write_wins() {
    // Receipts at 10 then 5 arrive out of order; the final value is the
    // last applied one, 5.
    let mut cache = Cache::new();
    cache.replace_chats(vec![general()]);
    assert!(cache.apply_chat_read(1, 10, 10));
    assert_eq!(cache.chats[0].users[0].last_message_seen_ts, 10);
    assert!(cache.apply_chat_read(1, 10, 5));
    assert_eq!(cache.chats[0].users[0].last_message_seen_ts, 5);
    // The other participant is untouched.
    assert_eq!(cache.chats[0].users[1].last_message_seen_ts, 0);
}

#[test]
fn read_receipt_for_unknown_user_is_dropped() {
    let mut cache = Cache::new();
    cache.replace_chats(vec![general()]);
    assert!(!cache.apply_chat_read(1, 99, 10));
    assert!(!cache.apply_chat_read(42, 10, 10));
    assert_eq!(cache.chats[0].users[0].last_message_seen_ts, 0);
}

#[test]
fn insert_chat_lands_at_stable_position() {
    let mut cache = Cache::new();
    cache.replace_chats(vec![
        chat(1, "one", vec![], vec![], 500),
        chat(2, "two", vec![], vec![], 300),
    ]);
    assert!(cache.insert_chat(chat(3, "three", vec![], vec![], 400)));
    let ids: Vec<u64> = cache.chats.iter().map(|c| c.id).collect();
    assert_eq!(ids, vec![1, 3, 2]);
    // A second chat with the same id is refused.
    assert!(!cache.insert_chat(chat(3, "dup", vec![], vec![], 999)));
    assert_eq!(cache.chats.len(), 3);
}

#[test]
fn set_profile_replaces_only_me() {
    let mut cache = Cache::new();
    cache.replace_chats(vec![general()]);
    cache.set_profile(user(10, "me", 0));
    assert_eq!(cache.me.as_ref().unwrap().display_name, b"me".to_vec());
    cache.set_profile(user(10, "renamed", 0));
    assert_eq!(cache.me.as_ref().unwrap().display_name, b"renamed".to_vec());
    // Participant records are separate from the own profile.
    assert_eq!(cache.chats[0].users[0].display_name, b"a".to_vec());
}
