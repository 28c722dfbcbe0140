use orchid::emote::build_emote_tag;
use orchid::emote::Emote;
use orchid::emote::EmoteHandler;
use orchid::emote::EmoteManager;
use orchid::emote::EmoteMatches;
use orchid::err::OrchidError;

fn kappa() -> Emote {
    Emote {
        source: String::from("test"),
        id: String::from("25"),
        name: String::from("Kappa"),
        channel: String::from("global"),
        effect: None,
        url: vec![String::from("u1")],
    }
}

struct MapProvider {
    map: Vec<(String, Emote)>,
}

impl EmoteManager for MapProvider {
    fn fetch(&mut self) -> Result<(), OrchidError> {
        Ok(())
    }

    fn get_emote(&mut self, _user_name: &str, _channel_name: &str, id: &str) -> Option<Emote> {
        for (k, e) in self.map.iter() {
            if k == id {
                return Some(e.clone());
            }
        }
        None
    }
}

#[test]
fn enrichment_replaces_matched_token() {
    let mut handler = EmoteHandler::new();
    handler.add_manager(Box::new(MapProvider { map: vec![(String::from("Kappa"), kappa())] }));
    let out = handler.process_message_with_emotes("hello Kappa world", "user", "chan");
    assert_eq!(out, "hello <!25:u1:Kappa> world");
}

#[test]
fn enrichment_without_providers_keeps_text() {
    let mut handler = EmoteHandler::new();
    let out = handler.process_message_with_emotes("hello Kappa world", "user", "chan");
    assert_eq!(out, "hello Kappa world");
}

#[test]
fn enrichment_replaces_substring_occurrences_too() {
    let mut handler = EmoteHandler::new();
    handler.add_manager(Box::new(MapProvider { map: vec![(String::from("Kappa"), kappa())] }));
    let out = handler.process_message_with_emotes("Kappa KappaKappa", "user", "chan");
    assert_eq!(out, "<!25:u1:Kappa> <!25:u1:Kappa><!25:u1:Kappa>");
}

#[test]
fn later_provider_overwrites_matched_emote() {
    let mut other = kappa();
    other.id = String::from("99");
    let mut handler = EmoteHandler::new();
    handler.add_manager(Box::new(MapProvider { map: vec![(String::from("Kappa"), kappa())] }));
    handler.add_manager(Box::new(MapProvider { map: vec![(String::from("Kappa"), other)] }));
    let out = handler.process_message_with_emotes("hey Kappa", "user", "chan");
    assert_eq!(out, "hey <!99:u1:Kappa>");
}

#[test]
fn replace_emotes_applies_collected_matches() {
    let handler = EmoteHandler::new();
    let mut matches = EmoteMatches::new();
    matches.insert(String::from("Kappa"), kappa());
    let out = handler.replace_emotes("a Kappa b", &matches);
    assert_eq!(out, "a <!25:u1:Kappa> b");
}

#[test]
fn emote_tag_with_effect_and_no_urls() {
    let e = Emote {
        source: String::from("test"),
        id: String::from("7"),
        name: String::from("n"),
        channel: String::from("global"),
        effect: Some(-5),
        url: vec![],
    };
    let tag: String = build_emote_tag(&e).iter().collect();
    assert_eq!(tag, "<!7:-5:n>");
}

#[test]
fn emote_tag_joins_urls_with_commas() {
    let e = Emote {
        source: String::from("test"),
        id: String::from("1"),
        name: String::from(""),
        channel: String::from("global"),
        effect: None,
        url: vec![String::from("a"), String::from("b"), String::from("c")],
    };
    let tag: String = build_emote_tag(&e).iter().collect();
    assert_eq!(tag, "<!1:a,b,c>");
}
