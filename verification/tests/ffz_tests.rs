use orchid::ffz::FfzEmoteData;
use orchid::ffz::FfzEmoteSet;
use orchid::ffz::FfzLookup;
use orchid::ffz::FrankerFaceZEmoteManager;

fn one_set(set_id: &str, id: i64, name: &str) -> FfzEmoteSet {
    FfzEmoteSet {
        set_id: String::from(set_id),
        emoticons: vec![FfzEmoteData {
            id,
            name: String::from(name),
            modifier_flags: 0,
            urls: vec![String::from("u1"), String::from("u2")],
        }],
    }
}

#[test]
fn uncached_channel_asks_for_its_fetch() {
    let m = FrankerFaceZEmoteManager::new();
    assert!(matches!(m.get_cached_emote("u", "c", "25", false, false), FfzLookup::NeedChannel));
}

#[test]
fn checked_channel_is_skipped_and_user_asked() {
    let m = FrankerFaceZEmoteManager::new();
    assert!(matches!(m.get_cached_emote("u", "c", "25", true, false), FfzLookup::NeedUser));
}

#[test]
fn fully_checked_miss_is_not_found() {
    let m = FrankerFaceZEmoteManager::new();
    assert!(matches!(m.get_cached_emote("u", "c", "25", true, true), FfzLookup::NotFound));
}

#[test]
fn channel_set_resolves_its_emote() {
    let mut m = FrankerFaceZEmoteManager::new();
    m.cache_set(one_set("s1", 25, "Kappa"));
    m.install_channel_set(String::from("c"), String::from("s1"));
    match m.get_cached_emote("u", "c", "25", false, false) {
        FfzLookup::Found(e) => {
            assert_eq!(e.id, "25");
            assert_eq!(e.name, "Kappa");
            assert_eq!(e.source, "FrankerFaceZ");
            assert_eq!(e.channel, "global");
            assert_eq!(e.effect, Some(0));
            assert_eq!(e.url, vec![String::from("u1"), String::from("u2")]);
        },
        other => panic!("expected a match, got {:?}", other),
    }
}

#[test]
fn global_set_wins_before_channel_and_user() {
    let mut m = FrankerFaceZEmoteManager::new();
    m.cache_set(one_set("g", 7, "GlobalEmote"));
    m.install_global_set(String::from("g"));
    // Neither the channel nor the user is cached, yet the global hit
    // answers without asking for a fetch.
    match m.get_cached_emote("u", "c", "7", false, false) {
        FfzLookup::Found(e) => assert_eq!(e.name, "GlobalEmote"),
        other => panic!("expected a match, got {:?}", other),
    }
}

#[test]
fn user_sets_are_scanned_in_order() {
    let mut m = FrankerFaceZEmoteManager::new();
    m.cache_sets(&vec![one_set("s1", 1, "First"), one_set("s2", 1, "Second")]);
    m.install_user_sets(String::from("u"), vec![String::from("s2"), String::from("s1")]);
    m.install_channel_set(String::from("c"), String::from("missing"));
    match m.get_cached_emote("u", "c", "1", false, false) {
        FfzLookup::Found(e) => assert_eq!(e.name, "Second"),
        other => panic!("expected a match, got {:?}", other),
    }
}

#[test]
fn empty_user_sets_mean_not_found() {
    let mut m = FrankerFaceZEmoteManager::new();
    m.install_user_sets(String::from("u"), vec![]);
    assert!(matches!(m.get_cached_emote("u", "c", "25", true, false), FfzLookup::NotFound));
}
