//! Bearer-token authentication of the proxy.

use vstd::prelude::*;

use crate::config::{Config, TokenEntry, TokenEntryView};
use crate::error::{error_object, typed_error, Reply};
use crate::json::{opt_text, JsonView};
use crate::seqs::views;
use crate::text::{after_prefix, lemma_after_own_prefix, strip_prefix, text_eq};

verus! {

/// Extension inserted into requests after successful auth, carrying the app name.
#[derive(Clone, Debug)]
pub struct AppName(pub String);

/// Extension inserted into requests after successful auth, carrying the token.
#[derive(Clone, Debug)]
pub struct BearerToken(pub String);

/// The application of each token; of two entries for one token, the later one
/// counts.
pub open spec fn token_table(tokens: Seq<TokenEntryView>) -> Map<Seq<char>, Seq<char>>
    decreases tokens.len(),
{
    if tokens.len() == 0 {
        Map::empty()
    } else {
        token_table(tokens.drop_last()).insert(tokens.last().token, tokens.last().app_name)
    }
}

/// No token is listed twice.
pub open spec fn tokens_distinct(tokens: Seq<TokenEntryView>) -> bool {
    forall|i: int, j: int|
        0 <= i < j < tokens.len() ==> (#[trigger] tokens[i]).token != (#[trigger] tokens[j]).token
}

/// The tokens that are accepted, each with its application.
#[derive(Debug)]
pub struct TokenMap {
    entries: Vec<TokenEntry>,
}

impl View for TokenMap {
    type V = Map<Seq<char>, Seq<char>>;

    closed spec fn view(&self) -> Map<Seq<char>, Seq<char>> {
        token_table(views(self.entries@))
    }
}

/// A token that is not listed has no application.
proof fn lemma_token_absent(tokens: Seq<TokenEntryView>, token: Seq<char>)
    requires
        forall|i: int| 0 <= i < tokens.len() ==> (#[trigger] tokens[i]).token != token,
    ensures
        !token_table(tokens).contains_key(token),
    decreases tokens.len(),
{
    if tokens.len() > 0 {
        lemma_token_absent(tokens.drop_last(), token);
    }
}

/// The last entry of a token gives its application.
proof fn lemma_token_last(tokens: Seq<TokenEntryView>, i: int)
    requires
        0 <= i < tokens.len(),
        forall|j: int| i < j < tokens.len() ==> (#[trigger] tokens[j]).token != tokens[i].token,
    ensures
        token_table(tokens).contains_key(tokens[i].token),
        token_table(tokens)[tokens[i].token] == tokens[i].app_name,
    decreases tokens.len(),
{
    if i < tokens.len() - 1 {
        lemma_token_last(tokens.drop_last(), i);
    }
}

impl TokenMap {
    #[verifier::type_invariant]
    spec fn wf(self) -> bool {
        tokens_distinct(views(self.entries@))
    }

    /// No token is accepted.
    pub fn new() -> (r: TokenMap)
        ensures
            r@ == Map::<Seq<char>, Seq<char>>::empty(),
    {
        let r = TokenMap { entries: Vec::new() };
        assert(views(r.entries@) =~= Seq::<TokenEntryView>::empty());
        r
    }

    /// The application of a token, if the token is accepted.
    pub fn get(&self, token: &str) -> (r: Option<&String>)
        ensures
            match r {
                Some(app) => self@.contains_key(token@) && app@ == self@[token@],
                None => !self@.contains_key(token@),
            },
    {
        let ghost all = views(self.entries@);
        let mut i: usize = self.entries.len();
        while i > 0
            invariant
                i <= self.entries@.len(),
                all == views(self.entries@),
                forall|j: int| i <= j < all.len() ==> (#[trigger] all[j]).token != token@,
            decreases i,
        {
            if text_eq(self.entries[i - 1].token.as_str(), token) {
                proof {
                    lemma_token_last(all, i - 1);
                }
                return Some(&self.entries[i - 1].app_name);
            }
            i -= 1;
        }
        proof {
            lemma_token_absent(all, token@);
        }
        None
    }

    /// The entries for all other tokens.
    fn others(&self, token: &str) -> (r: Vec<TokenEntry>)
        ensures
            token_table(views(r@)) == self@.remove(token@),
            tokens_distinct(views(r@)),
            forall|i: int| 0 <= i < r@.len() ==> (#[trigger] views(r@)[i]).token != token@,
    {
        proof {
            use_type_invariant(self);
        }
        let ghost all = views(self.entries@);
        let mut out: Vec<TokenEntry> = Vec::new();
        let mut i: usize = 0;
        assert(all.take(0) =~= Seq::<TokenEntryView>::empty());
        assert(views(out@) =~= Seq::<TokenEntryView>::empty());
        assert(token_table(views(out@)) =~= token_table(all.take(0)).remove(token@));
        while i < self.entries.len()
            invariant
                i <= self.entries@.len(),
                all == views(self.entries@),
                tokens_distinct(all),
                token_table(views(out@)) == token_table(all.take(i as int)).remove(token@),
                tokens_distinct(views(out@)),
                forall|k: int|
                    0 <= k < out@.len() ==> (#[trigger] views(out@)[k]).token != token@ && exists|
                        j: int,
                    |
                        0 <= j < i && #[trigger] all[j] == views(out@)[k],
            decreases self.entries.len() - i,
        {
            let e = &self.entries[i];
            let ghost before = views(out@);
            assert(all.take(i + 1).drop_last() =~= all.take(i as int));
            assert(all.take(i + 1).last() == e@);
            if !text_eq(e.token.as_str(), token) {
                out.push(TokenEntry { token: e.token.clone(), app_name: e.app_name.clone() });
                assert(views(out@) =~= before.push(e@));
                assert(views(out@).drop_last() =~= before);
                assert(token_table(views(out@)) =~= token_table(all.take(i + 1)).remove(token@));
                assert forall|k: int| 0 <= k < out@.len() implies (#[trigger] views(out@)[k]).token
                    != token@ && exists|j: int| 0 <= j < i + 1 && #[trigger] all[j] == views(
                    out@,
                )[k] by {
                    if k < before.len() {
                        assert(views(out@)[k] == before[k]);
                        let j = choose|j: int| 0 <= j < i && #[trigger] all[j] == before[k];
                        assert(all[j] == views(out@)[k]);
                    } else {
                        assert(all[i as int] == views(out@)[k]);
                    }
                }
                assert forall|a: int, b: int| 0 <= a < b < out@.len() implies (#[trigger] views(
                    out@,
                )[a]).token != (#[trigger] views(out@)[b]).token by {
                    assert(views(out@)[a] == before[a]);
                    if b < before.len() {
                        assert(views(out@)[b] == before[b]);
                    } else {
                        let j = choose|j: int| 0 <= j < i && #[trigger] all[j] == before[a];
                        assert(all[j].token != all[i as int].token);
                    }
                }
            } else {
                assert(token_table(views(out@)) =~= token_table(all.take(i + 1)).remove(token@));
                assert forall|k: int| 0 <= k < out@.len() implies (#[trigger] views(out@)[k]).token
                    != token@ && exists|j: int| 0 <= j < i + 1 && #[trigger] all[j] == views(
                    out@,
                )[k] by {
                    let j = choose|j: int| 0 <= j < i && #[trigger] all[j] == views(out@)[k];
                    assert(all[j] == views(out@)[k]);
                }
            }
            i += 1;
        }
        assert(all.take(all.len() as int) =~= all);
        out
    }

    /// Accepts a token for an application.
    pub fn insert(&mut self, token: String, app_name: String)
        ensures
            final(self)@ == old(self)@.insert(token@, app_name@),
    {
        let mut entries = self.others(token.as_str());
        let ghost before = views(entries@);
        let ghost entry = TokenEntryView { token: token@, app_name: app_name@ };
        entries.push(TokenEntry { token, app_name });
        assert(views(entries@) =~= before.push(entry));
        assert(views(entries@).drop_last() =~= before);
        assert forall|a: int, b: int| 0 <= a < b < entries@.len() implies (#[trigger] views(
            entries@,
        )[a]).token != (#[trigger] views(entries@)[b]).token by {
            assert(views(entries@)[a] == before[a]);
        }
        self.entries = entries;
        assert(self@ =~= old(self)@.insert(entry.token, entry.app_name));
    }

    /// Accepts a token no longer.
    pub fn remove(&mut self, token: &str)
        ensures
            final(self)@ == old(self)@.remove(token@),
    {
        let entries = self.others(token);
        self.entries = entries;
    }

    /// The tokens with their applications, each token once.
    pub fn entries(&self) -> (r: Vec<TokenEntry>)
        ensures
            token_table(views(r@)) == self@,
            tokens_distinct(views(r@)),
    {
        proof {
            use_type_invariant(self);
        }
        let r = self.entries.clone();
        assert(views(r@) =~= views(self.entries@));
        r
    }
}

impl Config {
    /// The tokens that are accepted, each with its application.
    pub fn token_map(&self) -> (r: TokenMap)
        ensures
            r@ == token_table(self@.tokens),
    {
        let mut map = TokenMap::new();
        let ghost all = views(self.tokens@);
        let mut i: usize = 0;
        assert(all.take(0) =~= Seq::<TokenEntryView>::empty());
        while i < self.tokens.len()
            invariant
                i <= self.tokens@.len(),
                all == views(self.tokens@),
                map@ == token_table(all.take(i as int)),
            decreases self.tokens.len() - i,
        {
            assert(all.take(i + 1).drop_last() =~= all.take(i as int));
            map.insert(self.tokens[i].token.clone(), self.tokens[i].app_name.clone());
            i += 1;
        }
        assert(all.take(all.len() as int) =~= all);
        map
    }
}

// ---------------------------------------------------------------------
// Requests

/// The application for which a request is admitted: its `Authorization`
/// header is `Bearer` followed by a token that is accepted.
pub open spec fn bearer_app(
    header: Option<Seq<char>>,
    tokens: Map<Seq<char>, Seq<char>>,
) -> Option<Seq<char>> {
    match header {
        Some(h) => match after_prefix(h, "Bearer "@) {
            Some(token) => if tokens.contains_key(token) {
                Some(tokens[token])
            } else {
                None
            },
            None => None,
        },
        None => None,
    }
}

/// The token with which a request is admitted.
pub open spec fn bearer_token(header: Option<Seq<char>>) -> Option<Seq<char>> {
    match header {
        Some(h) => after_prefix(h, "Bearer "@),
        None => None,
    }
}

/// The reply to a request that is not admitted.
pub open spec fn bearer_refusal() -> JsonView {
    error_object("Invalid or missing Bearer token"@, "authentication_error"@)
}

/// Admits a request for an application, with the token that it came with, or
/// refuses it.
pub fn authenticate(header: Option<String>, tokens: &TokenMap) -> (r: Result<
    (AppName, BearerToken),
    Reply,
>)
    ensures
        match bearer_app(opt_text(header), tokens@) {
            Some(app) => {
                &&& r is Ok
                &&& r->Ok_0.0.0@ == app
                &&& bearer_token(opt_text(header)) == Some(r->Ok_0.1.0@)
            },
            None => r is Err && r->Err_0.status == 401 && r->Err_0.body@ == bearer_refusal(),
        },
{
    if let Some(h) = header {
        if let Some(token) = strip_prefix(h.as_str(), "Bearer ") {
            if let Some(name) = tokens.get(token.as_str()) {
                return Ok((AppName(name.clone()), BearerToken(token)));
            }
        }
    }
    Err(
        Reply {
            status: 401,
            body: typed_error("Invalid or missing Bearer token", "authentication_error"),
        },
    )
}

/// The token of a request as the log shows it: not at all in privacy mode.
pub fn shown_token(token: Option<&BearerToken>, privacy_mode: bool) -> (r: Option<String>)
    ensures
        match token {
            Some(t) if !privacy_mode => r is Some && r->0@ == t.0@,
            _ => r is None,
        },
{
    match token {
        Some(t) => if privacy_mode {
            None
        } else {
            Some(t.0.clone())
        },
        None => None,
    }
}

/// A request is admitted exactly if its header is `Bearer `, one blank, and a token
/// that is accepted; it is admitted for that token's application and with that
/// token.
pub proof fn law_bearer(token: Seq<char>, h: Seq<char>, tokens: Map<Seq<char>, Seq<char>>)
    ensures
        tokens.contains_key(token) ==> bearer_app(Some("Bearer "@ + token), tokens) == Some(
            tokens[token],
        ),
        !tokens.contains_key(token) ==> bearer_app(Some("Bearer "@ + token), tokens) is None,
        bearer_token(Some("Bearer "@ + token)) == Some(token),
        h.len() < 7 || h.take(7) != "Bearer "@ ==> bearer_app(Some(h), tokens) is None
            && bearer_token(Some(h)) is None,
        bearer_app(None, tokens) is None,
        bearer_token(None) is None,
{
    lemma_after_own_prefix("Bearer "@, token);
    reveal_strlit("Bearer ");
    if h.len() >= 7 {
        assert(h.take(7) =~= h.subrange(0, 7));
    }
}

/// A list of tokens accepts the tokens in it and no others; of entries for one token
/// the last counts.
pub proof fn law_token_list(tokens: Seq<TokenEntryView>, i: int, other: Seq<char>)
    ensures
        0 <= i < tokens.len() && (forall|j: int|
            i < j < tokens.len() ==> (#[trigger] tokens[j]).token != tokens[i].token)
            ==> token_table(tokens).contains_key(tokens[i].token)
            && token_table(tokens)[tokens[i].token] == tokens[i].app_name,
        (forall|j: int| 0 <= j < tokens.len() ==> (#[trigger] tokens[j]).token != other)
            ==> !token_table(tokens).contains_key(other),
{
    if 0 <= i < tokens.len() && (forall|j: int|
        i < j < tokens.len() ==> (#[trigger] tokens[j]).token != tokens[i].token) {
        lemma_token_last(tokens, i);
    }
    if forall|j: int| 0 <= j < tokens.len() ==> (#[trigger] tokens[j]).token != other {
        lemma_token_absent(tokens, other);
    }
}

/// A request that is not admitted is told so, in an error object with a message and
/// a type and nothing else.
pub proof fn law_bearer_refusal(key: Seq<char>)
    ensures
        ({
            let error = bearer_refusal().member("error"@);
            &&& error is Some
            &&& error->0.member("message"@) == Some(
                JsonView::Str("Invalid or missing Bearer token"@),
            )
            &&& error->0.member("type"@) == Some(JsonView::Str("authentication_error"@))
            &&& key != "error"@ ==> bearer_refusal().member(key) is None
            &&& key != "message"@ && key != "type"@ ==> error->0.member(key) is None
        }),
{
    reveal_strlit("message");
    reveal_strlit("type");
    assert("message"@.len() != "type"@.len());
}

} // verus!
