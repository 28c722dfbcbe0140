//! The FrankerFaceZ emote provider's cache: emote sets keyed by set id, a
//! channel → set index, and per-user allowed set lists. The HTTP fetches
//! live outside; they hand their parsed results in through the install
//! methods, and the resolution logic here decides, from the cache alone,
//! whether a token is known or which fetch is still missing.

use vstd::prelude::*;

use vstd::hash_map::StringHashMap;

use crate::emote::Emote;
use crate::emote::EmoteView;
use crate::text::i64_to_chars;
use crate::text::chars_to_string;
use crate::text::seq_unique;
use crate::text::spec_dec_int;
use crate::text::str_eq;

verus! {

/// One emote as the provider's wire format carries it.
#[derive(Debug, Clone)]
pub struct FfzEmoteData {
    /// The provider's numeric emote id.
    pub id: i64,
    /// The emote's name.
    pub name: String,
    /// The emote's modifier flags.
    pub modifier_flags: i64,
    /// The emote's image URLs.
    pub urls: Vec<String>,
}

/// The mathematical value of an [`FfzEmoteData`].
pub struct FfzEmoteDataView {
    pub id: i64,
    pub name: Seq<char>,
    pub modifier_flags: i64,
    pub urls: Seq<Seq<char>>,
}

impl View for FfzEmoteData {
    type V = FfzEmoteDataView;

    open spec fn view(&self) -> FfzEmoteDataView {
        FfzEmoteDataView {
            id: self.id,
            name: self.name@,
            modifier_flags: self.modifier_flags,
            urls: self.urls.deep_view(),
        }
    }
}

impl DeepView for FfzEmoteData {
    type V = FfzEmoteDataView;

    open spec fn deep_view(&self) -> FfzEmoteDataView {
        self.view()
    }
}

/// One emote set as the provider's wire format carries it.
#[derive(Debug, Clone)]
pub struct FfzEmoteSet {
    /// The set's id.
    pub set_id: String,
    /// The set's emotes.
    pub emoticons: Vec<FfzEmoteData>,
}

/// The relay's emote for one wire emote: the decimal id, the name, the
/// flags as effect, the global channel scope and the URL list.
pub open spec fn spec_convert_emote(d: FfzEmoteDataView) -> EmoteView {
    EmoteView {
        source: "FrankerFaceZ"@,
        id: spec_dec_int(d.id as int),
        name: d.name,
        channel: "global"@,
        effect: Some(d.modifier_flags),
        url: d.urls,
    }
}

/// The converted emotes of one wire set, in order.
pub open spec fn spec_convert_set(es: Seq<FfzEmoteDataView>) -> Seq<EmoteView> {
    Seq::new(es.len(), |i: int| spec_convert_emote(es[i]))
}

impl DeepView for Emote {
    type V = EmoteView;

    open spec fn deep_view(&self) -> EmoteView {
        self.view()
    }
}

/// What one cache resolution step decides.
#[derive(Debug)]
pub enum FfzLookup {
    /// The token resolved to this emote.
    Found(Emote),
    /// The token is not known to any cached, applicable set.
    NotFound,
    /// The channel's sets are not cached; fetch them and retry.
    NeedChannel,
    /// The user's allowed sets are not cached; fetch them and retry.
    NeedUser,
}

/// The mathematical value of an [`FfzLookup`].
pub enum FfzLookupView {
    Found(EmoteView),
    NotFound,
    NeedChannel,
    NeedUser,
}

impl View for FfzLookup {
    type V = FfzLookupView;

    open spec fn view(&self) -> FfzLookupView {
        match self {
            FfzLookup::Found(e) => FfzLookupView::Found(e@),
            FfzLookup::NotFound => FfzLookupView::NotFound,
            FfzLookup::NeedChannel => FfzLookupView::NeedChannel,
            FfzLookup::NeedUser => FfzLookupView::NeedUser,
        }
    }
}

/// The first emote of the set whose id reads as the token; the provider's
/// data is keyed by emote id.
pub open spec fn spec_find_in_set(es: Seq<EmoteView>, token: Seq<char>) -> Option<EmoteView>
    decreases es.len(),
{
    if es.len() == 0 {
        None
    } else if es[0].id == token {
        Some(es[0])
    } else {
        spec_find_in_set(es.drop_first(), token)
    }
}

/// The first match for the token across the listed sets, in order,
/// skipping sets that are not cached.
pub open spec fn spec_scan_sets(
    ids: Seq<Seq<char>>,
    sets: Map<Seq<char>, Seq<EmoteView>>,
    token: Seq<char>,
) -> Option<EmoteView>
    decreases ids.len(),
{
    if ids.len() == 0 {
        None
    } else {
        let head = if sets.contains_key(ids[0]) {
            spec_find_in_set(sets[ids[0]], token)
        } else {
            None
        };
        if head is Some {
            head
        } else {
            spec_scan_sets(ids.drop_first(), sets, token)
        }
    }
}

/// What resolving a token against the cache yields: the global set is
/// tried first, then the channel's set, then the user's allowed sets; a
/// stage whose sets are not cached asks for its fetch unless the caller
/// already tried it.
pub open spec fn spec_ffz_lookup(
    sets: Map<Seq<char>, Seq<EmoteView>>,
    chans: Map<Seq<char>, Seq<char>>,
    users: Map<Seq<char>, Seq<Seq<char>>>,
    user: Seq<char>,
    channel: Seq<char>,
    token: Seq<char>,
    channel_checked: bool,
    user_checked: bool,
) -> FfzLookupView {
    let global_hit = if chans.contains_key("@global"@) && sets.contains_key(chans["@global"@])
        && spec_find_in_set(sets[chans["@global"@]], token) is Some {
        spec_find_in_set(sets[chans["@global"@]], token)
    } else {
        None
    };
    if global_hit is Some {
        FfzLookupView::Found(global_hit->0)
    } else if !chans.contains_key(channel) && !channel_checked {
        FfzLookupView::NeedChannel
    } else {
        let channel_hit = if chans.contains_key(channel) && sets.contains_key(chans[channel]) {
            spec_find_in_set(sets[chans[channel]], token)
        } else {
            None
        };
        if channel_hit is Some {
            FfzLookupView::Found(channel_hit->0)
        } else if !users.contains_key(user) && !user_checked {
            FfzLookupView::NeedUser
        } else {
            let user_hit = if users.contains_key(user) {
                spec_scan_sets(users[user], sets, token)
            } else {
                None
            };
            if user_hit is Some {
                FfzLookupView::Found(user_hit->0)
            } else {
                FfzLookupView::NotFound
            }
        }
    }
}

/// The FrankerFaceZ provider's cache.
pub struct FrankerFaceZEmoteManager {
    /// Set cache: set id → that set's emotes.
    set: StringHashMap<Vec<Emote>>,
    /// Channel-set cache: channel → set id; `"@global"` holds the
    /// default set's id.
    emotes: StringHashMap<String>,
    /// User-set cache: user → that user's allowed set ids.
    user_sets: StringHashMap<Vec<String>>,
}

impl FrankerFaceZEmoteManager {
    /// The set cache's value: set id → converted emotes.
    pub closed spec fn sets_view(self) -> Map<Seq<char>, Seq<EmoteView>> {
        Map::new(
            |k: Seq<char>| self.set@.contains_key(k),
            |k: Seq<char>| self.set@[k].deep_view(),
        )
    }

    /// The channel-set index's value: channel → set id.
    pub closed spec fn channels_view(self) -> Map<Seq<char>, Seq<char>> {
        Map::new(|k: Seq<char>| self.emotes@.contains_key(k), |k: Seq<char>| self.emotes@[k]@)
    }

    /// The user-set index's value: user → allowed set ids.
    pub closed spec fn users_view(self) -> Map<Seq<char>, Seq<Seq<char>>> {
        Map::new(
            |k: Seq<char>| self.user_sets@.contains_key(k),
            |k: Seq<char>| self.user_sets@[k].deep_view(),
        )
    }

    /// An empty cache.
    pub fn new() -> (r: FrankerFaceZEmoteManager)
        ensures
            r.sets_view() == Map::<Seq<char>, Seq<EmoteView>>::empty(),
            r.channels_view() == Map::<Seq<char>, Seq<char>>::empty(),
            r.users_view() == Map::<Seq<char>, Seq<Seq<char>>>::empty(),
    {
        let r = FrankerFaceZEmoteManager {
            set: StringHashMap::new(),
            emotes: StringHashMap::new(),
            user_sets: StringHashMap::new(),
        };
        proof {
            assert(r.sets_view() =~= Map::<Seq<char>, Seq<EmoteView>>::empty());
            assert(r.channels_view() =~= Map::<Seq<char>, Seq<char>>::empty());
            assert(r.users_view() =~= Map::<Seq<char>, Seq<Seq<char>>>::empty());
        }
        r
    }

    /// Converts one fetched set and stores it under its id.
    #[verifier::loop_isolation(false)]
    pub fn cache_set(&mut self, s: FfzEmoteSet)
        ensures
            final(self).sets_view() == old(self).sets_view().insert(
                s.set_id@,
                spec_convert_set(s.emoticons.deep_view()),
            ),
            final(self).channels_view() == old(self).channels_view(),
            final(self).users_view() == old(self).users_view(),
    {
        let ghost target = spec_convert_set(s.emoticons.deep_view());
        let mut converted: Vec<Emote> = Vec::new();
        let mut i: usize = 0;
        while i < s.emoticons.len()
            invariant
                i <= s.emoticons@.len(),
                converted.deep_view() == target.take(i as int),
            decreases s.emoticons@.len() - i,
        {
            let d = &s.emoticons[i];
            let idc = i64_to_chars(d.id);
            let e = Emote {
                source: String::from_str("FrankerFaceZ"),
                id: chars_to_string(&idc),
                name: d.name.clone(),
                channel: String::from_str("global"),
                effect: Some(d.modifier_flags),
                url: crate::text::clone_string_vec(&d.urls),
            };
            proof {
                assert(e@ == spec_convert_emote(s.emoticons@[i as int]@)) by {
                    assert(e@.url =~= s.emoticons@[i as int]@.urls);
                }
                assert(target[i as int] == spec_convert_emote(s.emoticons.deep_view()[i as int]));
            }
            converted.push(e);
            proof {
                assert(converted.deep_view() =~= target.take(i + 1));
            }
            i = i + 1;
        }
        proof {
            assert(target.take(target.len() as int) =~= target);
        }
        self.set.insert(s.set_id.clone(), converted);
        proof {
            assert(self.sets_view() =~= old(self).sets_view().insert(s.set_id@, target));
            assert(self.channels_view() =~= old(self).channels_view());
            assert(self.users_view() =~= old(self).users_view());
        }
    }

    /// Converts and stores every fetched set; the set ids must be
    /// distinct, as they are keys in the provider's response.
    #[verifier::loop_isolation(false)]
    pub fn cache_sets(&mut self, sets: &Vec<FfzEmoteSet>)
        requires
            seq_unique(Seq::new(sets@.len(), |i: int| sets@[i].set_id@)),
        ensures
            forall|i: int|
                0 <= i < sets@.len() ==> final(self).sets_view().contains_key(
                    #[trigger] sets@[i].set_id@,
                ) && final(self).sets_view()[sets@[i].set_id@] == spec_convert_set(
                    sets@[i].emoticons.deep_view(),
                ),
            forall|k: Seq<char>|
                (forall|i: int| 0 <= i < sets@.len() ==> (#[trigger] sets@[i].set_id@) != k) ==> ((
                #[trigger] final(self).sets_view().contains_key(k))
                    == old(self).sets_view().contains_key(k) && (old(
                    self,
                ).sets_view().contains_key(k) ==> final(self).sets_view()[k]
                    == old(self).sets_view()[k])),
            final(self).channels_view() == old(self).channels_view(),
            final(self).users_view() == old(self).users_view(),
    {
        let ghost ids = Seq::new(sets@.len(), |i: int| sets@[i].set_id@);
        let mut j: usize = 0;
        while j < sets.len()
            invariant
                j <= sets@.len(),
                ids.len() == sets@.len(),
                forall|i: int| 0 <= i < sets@.len() ==> (#[trigger] ids[i]) == sets@[i].set_id@,
                forall|i: int|
                    0 <= i < j ==> self.sets_view().contains_key(#[trigger] sets@[i].set_id@)
                        && self.sets_view()[sets@[i].set_id@] == spec_convert_set(
                        sets@[i].emoticons.deep_view(),
                    ),
                forall|k: Seq<char>|
                    (forall|i: int| 0 <= i < j ==> (#[trigger] ids[i]) != k) ==> (
                    #[trigger] self.sets_view().contains_key(k) == old(
                        self,
                    ).sets_view().contains_key(k) && (old(self).sets_view().contains_key(k)
                        ==> self.sets_view()[k] == old(self).sets_view()[k])),
                self.channels_view() == old(self).channels_view(),
                self.users_view() == old(self).users_view(),
            decreases sets@.len() - j,
        {
            let ghost pre_sets = self.sets_view();
            let c = clone_ffz_set(&sets[j]);
            self.cache_set(c);
            proof {
                assert(self.sets_view() == pre_sets.insert(
                    sets@[j as int].set_id@,
                    spec_convert_set(sets@[j as int].emoticons.deep_view()),
                ));
                assert forall|i: int|
                    0 <= i < j + 1 implies self.sets_view().contains_key(
                    #[trigger] sets@[i].set_id@,
                ) && self.sets_view()[sets@[i].set_id@] == spec_convert_set(
                    sets@[i].emoticons.deep_view(),
                ) by {
                    if i < j {
                        assert(ids[i] != ids[j as int]);
                        assert(pre_sets.contains_key(sets@[i].set_id@) && pre_sets[sets@[i].set_id@]
                            == spec_convert_set(sets@[i].emoticons.deep_view()));
                    }
                }
                assert forall|k: Seq<char>|
                    (forall|i: int| 0 <= i < j + 1 ==> (#[trigger] ids[i]) != k) implies (
                self.sets_view().contains_key(k) == old(self).sets_view().contains_key(k) && (old(
                    self,
                ).sets_view().contains_key(k) ==> self.sets_view()[k]
                    == old(self).sets_view()[k])) by {
                    assert(ids[j as int] != k);
                    assert(pre_sets.contains_key(k) == old(self).sets_view().contains_key(k) && (
                    old(self).sets_view().contains_key(k) ==> pre_sets[k]
                        == old(self).sets_view()[k]));
                }
            }
            j = j + 1;
        }
    }
}

/// A copy of one emote carrying the same value.
fn clone_emote(e: &Emote) -> (r: Emote)
    ensures
        r@ == e@,
{
    let r = Emote {
        source: e.source.clone(),
        id: e.id.clone(),
        name: e.name.clone(),
        channel: e.channel.clone(),
        effect: e.effect,
        url: crate::text::clone_string_vec(&e.url),
    };
    proof {
        assert(r@.url =~= e@.url);
    }
    r
}

/// The first emote of the set whose id reads as the token.
#[verifier::loop_isolation(false)]
fn find_in_set(es: &Vec<Emote>, token: &str) -> (r: Option<Emote>)
    ensures
        match r {
            Some(e) => spec_find_in_set(es.deep_view(), token@) == Some(e@),
            None => spec_find_in_set(es.deep_view(), token@) is None,
        },
{
    let ghost dv = es.deep_view();
    let mut i: usize = 0;
    proof {
        assert(dv.skip(0) =~= dv);
    }
    while i < es.len()
        invariant
            i <= dv.len(),
            dv.len() == es@.len(),
            spec_find_in_set(dv, token@) == spec_find_in_set(dv.skip(i as int), token@),
        decreases dv.len() - i,
    {
        proof {
            assert(dv.skip(i as int)[0] == dv[i as int]);
            assert(dv[i as int] == es@[i as int].deep_view());
            assert(dv.skip(i as int).drop_first() =~= dv.skip(i + 1));
        }
        if str_eq(es[i].id.as_str(), token) {
            let e = clone_emote(&es[i]);
            proof {
                assert(spec_find_in_set(dv.skip(i as int), token@) == Some(dv[i as int]));
            }
            return Some(e);
        }
        i = i + 1;
    }
    proof {
        assert(dv.skip(dv.len() as int) =~= Seq::<EmoteView>::empty());
    }
    None
}

impl FrankerFaceZEmoteManager {
    /// Records a channel's set id, as a channel fetch yields it.
    pub fn install_channel_set(&mut self, channel: String, set_id: String)
        ensures
            final(self).channels_view() == old(self).channels_view().insert(channel@, set_id@),
            final(self).sets_view() == old(self).sets_view(),
            final(self).users_view() == old(self).users_view(),
    {
        self.emotes.insert(channel, set_id);
        proof {
            assert(self.channels_view() =~= old(self).channels_view().insert(channel@, set_id@));
            assert(self.sets_view() =~= old(self).sets_view());
            assert(self.users_view() =~= old(self).users_view());
        }
    }

    /// Records the default set's id under the reserved name `"@global"`.
    pub fn install_global_set(&mut self, set_id: String)
        ensures
            final(self).channels_view() == old(self).channels_view().insert("@global"@, set_id@),
            final(self).sets_view() == old(self).sets_view(),
            final(self).users_view() == old(self).users_view(),
    {
        self.emotes.insert(String::from_str("@global"), set_id);
        proof {
            assert(self.channels_view() =~= old(self).channels_view().insert("@global"@, set_id@));
            assert(self.sets_view() =~= old(self).sets_view());
            assert(self.users_view() =~= old(self).users_view());
        }
    }

    /// Records a user's allowed set ids, as a user fetch yields them.
    pub fn install_user_sets(&mut self, user: String, set_ids: Vec<String>)
        ensures
            final(self).users_view() == old(self).users_view().insert(user@, set_ids.deep_view()),
            final(self).sets_view() == old(self).sets_view(),
            final(self).channels_view() == old(self).channels_view(),
    {
        self.user_sets.insert(user, set_ids);
        proof {
            assert(self.users_view() =~= old(self).users_view().insert(user@, set_ids.deep_view()));
            assert(self.sets_view() =~= old(self).sets_view());
            assert(self.channels_view() =~= old(self).channels_view());
        }
    }

    /// Resolves a token against the cache: the global set first, then the
    /// channel's set, then the user's allowed sets in order. A stage whose
    /// sets are not cached asks the caller to fetch and retry — unless the
    /// matching `checked` flag says that was already tried, in which case
    /// the stage is skipped.
    #[verifier::loop_isolation(false)]
    pub fn get_cached_emote(
        &self,
        user_name: &str,
        channel_name: &str,
        token: &str,
        channel_checked: bool,
        user_checked: bool,
    ) -> (r: FfzLookup)
        ensures
            r@ == spec_ffz_lookup(
                self.sets_view(),
                self.channels_view(),
                self.users_view(),
                user_name@,
                channel_name@,
                token@,
                channel_checked,
                user_checked,
            ),
    {
        let ghost sv = self.sets_view();
        let ghost cv = self.channels_view();
        let ghost uv = self.users_view();
        // Global/default set.
        let glob: Option<Emote> = match self.emotes.get("@global") {
            Some(set_id) => match self.set.get(set_id.as_str()) {
                Some(es) => {
                    proof {
                        assert(cv.contains_key("@global"@) && cv["@global"@] == set_id@);
                        assert(sv.contains_key(set_id@) && sv[set_id@] == es.deep_view());
                    }
                    find_in_set(es, token)
                },
                None => None,
            },
            None => None,
        };
        match glob {
            Some(e) => {
                return FfzLookup::Found(e);
            },
            None => {},
        }
        // The channel's set.
        let channel_cached = self.emotes.contains_key(channel_name);
        if !channel_cached && !channel_checked {
            return FfzLookup::NeedChannel;
        }
        let chan_hit: Option<Emote> = match self.emotes.get(channel_name) {
            Some(set_id) => match self.set.get(set_id.as_str()) {
                Some(es) => {
                    proof {
                        assert(cv.contains_key(channel_name@) && cv[channel_name@] == set_id@);
                        assert(sv.contains_key(set_id@) && sv[set_id@] == es.deep_view());
                    }
                    find_in_set(es, token)
                },
                None => None,
            },
            None => None,
        };
        match chan_hit {
            Some(e) => {
                return FfzLookup::Found(e);
            },
            None => {},
        }
        // The user's allowed sets.
        let user_cached = self.user_sets.contains_key(user_name);
        if !user_cached && !user_checked {
            return FfzLookup::NeedUser;
        }
        match self.user_sets.get(user_name) {
            Some(ids) => {
                let ghost idv = ids.deep_view();
                proof {
                    assert(uv.contains_key(user_name@) && uv[user_name@] == idv);
                    assert(idv.skip(0) =~= idv);
                }
                let mut i: usize = 0;
                while i < ids.len()
                    invariant
                        i <= idv.len(),
                        idv.len() == ids@.len(),
                        spec_scan_sets(idv, sv, token@) == spec_scan_sets(
                            idv.skip(i as int),
                            sv,
                            token@,
                        ),
                    decreases idv.len() - i,
                {
                    proof {
                        assert(idv.skip(i as int)[0] == idv[i as int]);
                        assert(idv[i as int] == ids@[i as int]@);
                        assert(idv.skip(i as int).drop_first() =~= idv.skip(i + 1));
                    }
                    match self.set.get(ids[i].as_str()) {
                        Some(es) => {
                            proof {
                                assert(sv.contains_key(idv[i as int]) && sv[idv[i as int]]
                                    == es.deep_view());
                            }
                            match find_in_set(es, token) {
                                Some(e) => {
                                    return FfzLookup::Found(e);
                                },
                                None => {},
                            }
                        },
                        None => {
                            proof {
                                assert(!sv.contains_key(idv[i as int]));
                            }
                        },
                    }
                    i = i + 1;
                }
                proof {
                    assert(idv.skip(idv.len() as int) =~= Seq::<Seq<char>>::empty());
                }
                FfzLookup::NotFound
            },
            None => FfzLookup::NotFound,
        }
    }
}

/// A copy of one wire emote carrying the same value.
fn clone_emote_data(d: &FfzEmoteData) -> (r: FfzEmoteData)
    ensures
        r@ == d@,
{
    let r = FfzEmoteData {
        id: d.id,
        name: d.name.clone(),
        modifier_flags: d.modifier_flags,
        urls: crate::text::clone_string_vec(&d.urls),
    };
    proof {
        assert(r@.urls =~= d@.urls);
    }
    r
}

/// A copy of one wire set carrying the same value.
fn clone_ffz_set(s: &FfzEmoteSet) -> (r: FfzEmoteSet)
    ensures
        r.set_id@ == s.set_id@,
        r.emoticons.deep_view() == s.emoticons.deep_view(),
{
    let mut es: Vec<FfzEmoteData> = Vec::new();
    let mut i: usize = 0;
    while i < s.emoticons.len()
        invariant
            i <= s.emoticons@.len(),
            es@.len() == i,
            forall|k: int|
                0 <= k < i ==> (#[trigger] es@[k]).deep_view() == s.emoticons@[k].deep_view(),
        decreases s.emoticons@.len() - i,
    {
        let c = clone_emote_data(&s.emoticons[i]);
        proof {
            assert(c.deep_view() == s.emoticons@[i as int].deep_view());
        }
        es.push(c);
        i = i + 1;
    }
    proof {
        assert forall|k: int|
            0 <= k < es.deep_view().len() implies es.deep_view()[k] == s.emoticons.deep_view()[k] by {
            assert(es.deep_view()[k] == es@[k].deep_view());
            assert(s.emoticons.deep_view()[k] == s.emoticons@[k].deep_view());
            assert(es@[k].deep_view() == s.emoticons@[k].deep_view());
        }
        assert(es.deep_view() =~= s.emoticons.deep_view());
    }
    FfzEmoteSet { set_id: s.set_id.clone(), emoticons: es }
}

} // verus!
