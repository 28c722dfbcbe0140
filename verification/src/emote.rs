//! The emote enrichment engine: interchangeable emote providers, the
//! collection of matched tokens, and the rewriting of message text with
//! inline emote tags.

use vstd::prelude::*;

use crate::err::OrchidError;
use crate::text::chars_to_string;
use crate::text::lemma_words_nonempty;
use crate::text::push_all;
use crate::text::replace_chars;
use crate::text::seq_unique;
use crate::text::spec_dec_int;
use crate::text::spec_replace;
use crate::text::spec_words;
use crate::text::split_words;
use crate::text::str_eq;
use crate::text::str_to_chars;
use crate::text::i64_to_chars;

verus! {

/// One chat emote as a provider reports it.
#[derive(Debug, Clone)]
pub struct Emote {
    /// The provider the emote came from.
    pub source: String,
    /// The provider's id for the emote.
    pub id: String,
    /// The emote's display name.
    pub name: String,
    /// The channel scope the emote belongs to.
    pub channel: String,
    /// An optional numeric modifier/effect.
    pub effect: Option<i64>,
    /// The emote's image URLs.
    pub url: Vec<String>,
}

/// The mathematical value of an [`Emote`].
pub struct EmoteView {
    pub source: Seq<char>,
    pub id: Seq<char>,
    pub name: Seq<char>,
    pub channel: Seq<char>,
    pub effect: Option<i64>,
    pub url: Seq<Seq<char>>,
}

impl View for Emote {
    type V = EmoteView;

    open spec fn view(&self) -> EmoteView {
        EmoteView {
            source: self.source@,
            id: self.id@,
            name: self.name@,
            channel: self.channel@,
            effect: self.effect,
            url: self.url.deep_view(),
        }
    }
}

/// The strings joined by single commas, in order.
pub open spec fn spec_join_comma(ss: Seq<Seq<char>>) -> Seq<char>
    decreases ss.len(),
{
    if ss.len() == 0 {
        Seq::empty()
    } else if ss.len() == 1 {
        ss[0]
    } else {
        ss[0] + ","@ + spec_join_comma(ss.drop_first())
    }
}

/// Joining one more string appends a comma and the string.
pub proof fn lemma_join_push(ss: Seq<Seq<char>>, x: Seq<char>)
    ensures
        spec_join_comma(ss.push(x)) == if ss.len() == 0 {
            x
        } else {
            spec_join_comma(ss) + ","@ + x
        },
    decreases ss.len(),
{
    if ss.len() == 0 {
        assert(spec_join_comma(ss.push(x)) == ss.push(x)[0]);
    } else if ss.len() == 1 {
        assert(ss.push(x).drop_first() =~= seq![x]);
        assert(spec_join_comma(seq![x]) == seq![x][0]);
        assert(spec_join_comma(ss.push(x)) =~= ss[0] + ","@ + x);
    } else {
        assert(ss.push(x).drop_first() =~= ss.drop_first().push(x));
        lemma_join_push(ss.drop_first(), x);
        assert(spec_join_comma(ss.push(x)) =~= spec_join_comma(ss) + ","@ + x);
    }
}

/// The inline tag an emote is rendered as inside message text:
/// `<!id[:urls comma-joined][:effect][:name]>`.
pub open spec fn spec_emote_tag(e: EmoteView) -> Seq<char> {
    "<!"@ + e.id + (if e.url.len() > 0 {
        ":"@ + spec_join_comma(e.url)
    } else {
        Seq::empty()
    }) + (match e.effect {
        Some(f) => ":"@ + spec_dec_int(f as int),
        None => Seq::empty(),
    }) + (if e.name.len() > 0 {
        ":"@ + e.name
    } else {
        Seq::empty()
    }) + ">"@
}

/// Renders an emote's inline tag.
#[verifier::loop_isolation(false)]
pub fn build_emote_tag(e: &Emote) -> (r: Vec<char>)
    ensures
        r@ == spec_emote_tag(e@),
{
    proof {
        reveal_strlit("<!");
        reveal_strlit(":");
        reveal_strlit(",");
        reveal_strlit(">");
    }
    let mut out: Vec<char> = Vec::new();
    out.push('<');
    out.push('!');
    let idc = str_to_chars(e.id.as_str());
    push_all(&mut out, &idc);
    proof {
        assert(out@ =~= "<!"@ + e@.id);
    }
    let ghost head = out@;
    if e.url.len() > 0 {
        out.push(':');
        let mut k: usize = 0;
        while k < e.url.len()
            invariant
                k <= e.url@.len(),
                out@ == head + ":"@ + (if k == 0 {
                    Seq::<char>::empty()
                } else {
                    spec_join_comma(e.url.deep_view().take(k as int))
                }),
            decreases e.url@.len() - k,
        {
            if k > 0 {
                out.push(',');
            }
            let uc = str_to_chars(e.url[k].as_str());
            push_all(&mut out, &uc);
            proof {
                let urls = e.url.deep_view();
                assert(urls.take(k + 1) =~= urls.take(k as int).push(urls[k as int]));
                lemma_join_push(urls.take(k as int), urls[k as int]);
                assert(urls[k as int] == e.url@[k as int]@);
                if k == 0 {
                    assert(out@ =~= head + ":"@ + spec_join_comma(urls.take(k + 1)));
                } else {
                    assert(out@ =~= head + ":"@ + spec_join_comma(urls.take(k + 1)));
                }
            }
            k = k + 1;
        }
        proof {
            assert(e.url.deep_view().take(e.url@.len() as int) =~= e.url.deep_view());
        }
    }
    proof {
        assert(out@ =~= head + (if e@.url.len() > 0 {
            ":"@ + spec_join_comma(e@.url)
        } else {
            Seq::<char>::empty()
        }));
    }
    let ghost mid = out@;
    match &e.effect {
        Some(f) => {
            out.push(':');
            let d = i64_to_chars(*f);
            push_all(&mut out, &d);
            proof {
                assert(out@ =~= mid + (":"@ + spec_dec_int(*f as int)));
            }
        },
        None => {},
    }
    let ghost mid2 = out@;
    if !e.name.as_str().is_empty() {
        out.push(':');
        let nc = str_to_chars(e.name.as_str());
        push_all(&mut out, &nc);
        proof {
            assert(out@ =~= mid2 + (":"@ + e@.name));
        }
    }
    out.push('>');
    proof {
        assert(out@ =~= spec_emote_tag(e@));
    }
    out
}

/// The tokens matched so far, each with the emote that will replace it:
/// an insertion-ordered map whose later inserts overwrite earlier ones.
pub struct EmoteMatches {
    entries: Vec<(String, Emote)>,
}

/// The keys of a match list, in order.
pub open spec fn match_keys(es: Seq<(Seq<char>, EmoteView)>) -> Seq<Seq<char>> {
    Seq::new(es.len(), |i: int| es[i].0)
}

/// Each entry's token is among the list's keys.
proof fn lemma_match_key_at(es: Seq<(Seq<char>, EmoteView)>, j: int)
    requires
        0 <= j < es.len(),
    ensures
        match_keys(es).contains(es[j].0),
{
    assert(match_keys(es)[j] == es[j].0);
}

impl EmoteMatches {
    /// The matched (token, emote) pairs, in insertion order.
    pub closed spec fn entries_view(self) -> Seq<(Seq<char>, EmoteView)> {
        Seq::new(self.entries@.len(), |i: int| (self.entries@[i].0@, self.entries@[i].1@))
    }

    /// Tokens are non-empty and never repeat.
    pub closed spec fn wf(self) -> bool {
        &&& seq_unique(match_keys(self.entries_view()))
        &&& (forall|i: int|
            0 <= i < self.entries_view().len() ==> (#[trigger] self.entries_view()[i].0).len() > 0)
    }

    /// An empty match list.
    pub fn new() -> (r: EmoteMatches)
        ensures
            r.wf(),
            r.entries_view() == Seq::<(Seq<char>, EmoteView)>::empty(),
    {
        let r = EmoteMatches { entries: Vec::new() };
        proof {
            assert(r.entries_view() =~= Seq::<(Seq<char>, EmoteView)>::empty());
        }
        r
    }

    /// How many tokens are matched.
    pub fn len(&self) -> (n: usize)
        ensures
            n == self.entries_view().len(),
    {
        self.entries.len()
    }

    /// Records a match: a repeated token keeps its place but takes the new
    /// emote; a fresh token is appended with its emote.
    pub fn insert(&mut self, token: String, emote: Emote)
        requires
            old(self).wf(),
            token@.len() > 0,
        ensures
            final(self).wf(),
            forall|k: Seq<char>|
                #[trigger] match_keys(final(self).entries_view()).contains(k) <==> (match_keys(
                    old(self).entries_view(),
                ).contains(k) || k == token@),
            match_keys(old(self).entries_view()).contains(token@) ==> (exists|p: int|
                0 <= p < old(self).entries_view().len() && (#[trigger] old(
                    self,
                ).entries_view()[p].0) == token@ && final(self).entries_view() == old(
                    self,
                ).entries_view().update(p, (token@, emote@))),
            !match_keys(old(self).entries_view()).contains(token@) ==> final(self).entries_view()
                == old(self).entries_view().push((token@, emote@)),
    {
        let ghost es_old = self.entries_view();
        let ghost ev = emote@;
        match find_match_key(&self.entries, token.as_str()) {
            Some(p) => {
                let _ = self.entries.remove(p);
                self.entries.insert(p, (token, emote));
                proof {
                    assert(match_keys(es_old)[p as int] == token@);
                    assert(match_keys(es_old).contains(token@));
                    assert(self.entries_view() =~= es_old.update(p as int, (token@, ev)));
                    assert(match_keys(self.entries_view()) =~= match_keys(es_old));
                    assert(es_old[p as int].0 == token@);
                    assert forall|i: int| 0 <= i < self.entries_view().len() implies (
                    #[trigger] self.entries_view()[i].0).len() > 0 by {
                        assert(self.entries_view()[i].0 == match_keys(es_old)[i]);
                        assert(match_keys(es_old)[i] == es_old[i].0);
                    }
                }
            },
            None => {
                self.entries.push((token, emote));
                proof {
                    assert(self.entries_view() =~= es_old.push((token@, ev)));
                    assert(match_keys(self.entries_view()) =~= match_keys(es_old).push(token@));
                    crate::text::lemma_push_contains(match_keys(es_old), token@);
                    assert(!match_keys(es_old).contains(token@)) by {
                        if match_keys(es_old).contains(token@) {
                            let q = choose|q: int|
                                0 <= q < match_keys(es_old).len() && match_keys(es_old)[q]
                                    == token@;
                            assert(es_old[q].0 == token@);
                        }
                    }
                    crate::text::lemma_push_unique(match_keys(es_old), token@);
                    assert forall|i: int| 0 <= i < self.entries_view().len() implies (
                    #[trigger] self.entries_view()[i].0).len() > 0 by {
                        if i < es_old.len() {
                            assert(self.entries_view()[i].0 == es_old[i].0);
                        } else {
                            assert(self.entries_view()[i].0 == token@);
                        }
                    }
                }
            },
        }
    }
}

/// The position of the entry whose token holds the characters of `x`.
fn find_match_key(entries: &Vec<(String, Emote)>, x: &str) -> (r: Option<usize>)
    ensures
        match r {
            Some(i) => i < entries@.len() && entries@[i as int].0@ == x@,
            None => forall|j: int| 0 <= j < entries@.len() ==> entries@[j].0@ != x@,
        },
{
    let mut i: usize = 0;
    while i < entries.len()
        invariant
            i <= entries@.len(),
            forall|j: int| 0 <= j < i ==> entries@[j].0@ != x@,
        decreases entries@.len() - i,
    {
        if str_eq(entries[i].0.as_str(), x) {
            return Some(i);
        }
        i = i + 1;
    }
    None
}

/// The text after replacing, for each match in order, every occurrence of
/// its token with its emote's inline tag.
pub open spec fn spec_apply_matches(text: Seq<char>, es: Seq<(Seq<char>, EmoteView)>) -> Seq<char>
    decreases es.len(),
{
    if es.len() == 0 {
        text
    } else {
        spec_apply_matches(spec_replace(text, es[0].0, spec_emote_tag(es[0].1)), es.drop_first())
    }
}

/// `body` is a possible enrichment of `text`: the result of substituting
/// some match list whose tokens are distinct whitespace-separated words
/// of `text`. Which emote a word binds is the providers' choice, so only
/// the shape is fixed here.
pub open spec fn spec_enrichment_of(body: Seq<char>, text: Seq<char>) -> bool {
    exists|es: Seq<(Seq<char>, EmoteView)>|
        #[trigger] spec_apply_matches(text, es) == body && seq_unique(match_keys(es)) && (forall|
            i: int,
        |
            0 <= i < es.len() ==> spec_words(text).contains(#[trigger] es[i].0) && es[i].0.len()
                > 0)
}

/// A source of emotes: bulk-refreshes its default sets and resolves one
/// token against its scopes. What either call yields is the provider's
/// own business; the engine treats every answer as possible.
pub trait EmoteManager: Send + Sync {
    /// Refreshes the provider's global/default emote sets.
    fn fetch(&mut self) -> Result<(), OrchidError>;

    /// Resolves a word of a message to an emote, if the provider knows
    /// one for this user and channel.
    fn get_emote(&mut self, user_name: &str, channel_name: &str, id: &str) -> Option<Emote>;
}

/// The enrichment engine: an ordered list of emote providers.
pub struct EmoteHandler {
    pub managers: Vec<Box<dyn EmoteManager>>,
}

impl EmoteHandler {
    /// An engine with no providers: it rewrites nothing.
    pub fn new() -> (r: EmoteHandler)
        ensures
            r.managers@.len() == 0,
    {
        EmoteHandler { managers: Vec::new() }
    }

    /// Registers one more provider, after those already registered:
    /// earlier providers keep their priority in token resolution.
    pub fn add_manager(&mut self, manager: Box<dyn EmoteManager>)
        ensures
            final(self).managers@ == old(self).managers@.push(manager),
    {
        self.managers.push(manager);
    }

    /// Rewrites the message: for each match in order, every occurrence of
    /// its token is replaced by its emote's inline tag. Replacement is
    /// literal substring replacement, not word-boundary aware, so a token
    /// occurring inside a longer word is rewritten there too.
    #[verifier::loop_isolation(false)]
    pub fn replace_emotes(&self, message: &str, emotes: &EmoteMatches) -> (r: String)
        requires
            emotes.wf(),
        ensures
            r@ == spec_apply_matches(message@, emotes.entries_view()),
    {
        let ghost es = emotes.entries_view();
        let mut cur: Vec<char> = str_to_chars(message);
        let mut i: usize = 0;
        proof {
            assert(es.skip(0) =~= es);
        }
        while i < emotes.entries.len()
            invariant
                i <= es.len(),
                es.len() == emotes.entries@.len(),
                spec_apply_matches(message@, es) == spec_apply_matches(cur@, es.skip(i as int)),
            decreases es.len() - i,
        {
            let token = str_to_chars(emotes.entries[i].0.as_str());
            let tag = build_emote_tag(&emotes.entries[i].1);
            proof {
                assert(es[i as int].0.len() > 0);
                assert(token@ == es[i as int].0);
                assert(es.skip(i as int)[0] == es[i as int]);
                assert(es.skip(i as int).drop_first() =~= es.skip(i + 1));
            }
            let next = replace_chars(&cur, &token, &tag);
            cur = next;
            i = i + 1;
        }
        proof {
            assert(es.skip(es.len() as int) =~= Seq::<(Seq<char>, EmoteView)>::empty());
        }
        chars_to_string(&cur)
    }

    /// Enriches one message: every whitespace-separated word is offered to
    /// every provider in order, matched words collect an emote each —
    /// later providers overwrite the emote of an already-matched word —
    /// and the matches are then substituted into the text.
    #[verifier::loop_isolation(false)]
    pub fn process_message_with_emotes(
        &mut self,
        message: &str,
        user_name: &str,
        channel_name: &str,
    ) -> (r: String)
        ensures
            spec_enrichment_of(r@, message@),
            old(self).managers@.len() == 0 ==> r@ == message@,
    {
        let msg_chars = str_to_chars(message);
        let words = split_words(&msg_chars);
        proof {
            lemma_words_nonempty(message@, Seq::empty());
        }
        let mut found = EmoteMatches::new();
        let mut i: usize = 0;
        while i < self.managers.len()
            invariant
                i <= self.managers@.len(),
                self.managers@.len() == old(self).managers@.len(),
                words.deep_view() == spec_words(message@),
                found.wf(),
                old(self).managers@.len() == 0 ==> found.entries_view() == Seq::<(
                    Seq<char>,
                    EmoteView,
                )>::empty(),
                forall|k: Seq<char>|
                    #[trigger] match_keys(found.entries_view()).contains(k) ==> spec_words(
                        message@,
                    ).contains(k) && k.len() > 0,
            decreases self.managers@.len() - i,
        {
            let mut w: usize = 0;
            while w < words.len()
                invariant
                    i < self.managers@.len(),
                    w <= words@.len(),
                    self.managers@.len() == old(self).managers@.len(),
                    words.deep_view() == spec_words(message@),
                    found.wf(),
                    forall|k: Seq<char>|
                        #[trigger] match_keys(found.entries_view()).contains(k) ==> spec_words(
                            message@,
                        ).contains(k) && k.len() > 0,
                decreases words@.len() - w,
            {
                let token = chars_to_string(&words[w]);
                proof {
                    assert(token@ == words.deep_view()[w as int]);
                    assert(spec_words(message@).contains(token@));
                    assert(token@.len() > 0);
                }
                let manager = vstd::std_specs::vec::vec_index_mut(&mut self.managers, i);
                match manager.get_emote(user_name, channel_name, token.as_str()) {
                    Some(emote) => {
                        found.insert(token, emote);
                    },
                    None => {},
                }
                w = w + 1;
            }
            i = i + 1;
        }
        let r = self.replace_emotes(message, &found);
        proof {
            let es = found.entries_view();
            assert(spec_apply_matches(message@, es) == r@);
            assert forall|j: int| 0 <= j < es.len() implies spec_words(message@).contains(
                #[trigger] es[j].0,
            ) && es[j].0.len() > 0 by {
                lemma_match_key_at(es, j);
            }
            assert(spec_enrichment_of(r@, message@));
            if old(self).managers@.len() == 0 {
                assert(es =~= Seq::<(Seq<char>, EmoteView)>::empty());
            }
        }
        r
    }
}

} // verus!
