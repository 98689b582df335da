//! Credentials and the address of the provider.
use vstd::prelude::*;
use crate::error::AiError;
use crate::json::{field_of, json_view, parse_strict, strict_json, text_in, Json, JsonView};
use crate::message::Text;
use crate::text::{
    chars_of, contains_text, debug_text, ends_with_text, joined, owned, shown, stands_at, text_contains,
    text_ends_with, text_of, trim_text, trimmed,
};

verus! {

/// The address where none is given.
pub open spec fn default_base_url() -> Text {
    "https://api.anthropic.com"@
}

/// `s` without the slashes at its end.
pub open spec fn without_slashes(s: Text) -> Text
    decreases s.len(),
{
    if s.len() > 0 && s.last() == '/' {
        without_slashes(s.drop_last())
    } else {
        s
    }
}

/// An address without white space around it, slashes at its end, and a last
/// segment `v1`.
pub open spec fn normal_base_url(s: Text) -> Text {
    let t = without_slashes(trimmed(s));
    if ends_with_text(t, "/v1"@) {
        t.subrange(0, t.len() - 3)
    } else {
        t
    }
}

pub fn normalize_base_url(base_url: &str) -> (r: String)
    ensures
        r@ == normal_base_url(base_url@),
{
    let t = trim_text(base_url);
    let v = chars_of(t.as_str());
    let mut to: usize = v.len();
    assert(v@.take(to as int) =~= v@);
    while to > 0 && v[to - 1] == '/'
        invariant
            v@ == t@,
            to <= v.len(),
            without_slashes(t@) == without_slashes(t@.take(to as int)),
        decreases to,
    {
        assert(t@.take(to as int).drop_last() =~= t@.take(to - 1));
        to = to - 1;
    }
    let bare = text_of(&v, 0, to);
    assert(t@.take(to as int) =~= bare@);
    proof {
        reveal_strlit("/v1");
    }
    if text_ends_with(bare.as_str(), "/v1") {
        text_of(&v, 0, to - 3)
    } else {
        bare
    }
}

pub open spec fn oauth_token(key: Text) -> bool {
    contains_text(key, "sk-ant-oat"@)
}

/// Whether a key is an OAuth token.
pub fn is_oauth_token(api_key: &str) -> (r: bool)
    ensures
        r == oauth_token(api_key@),
{
    text_contains(api_key, "sk-ant-oat")
}

/// How to reach and authenticate to the provider.
#[derive(Debug, PartialEq, Eq)]
pub struct AnthropicAuthConfig {
    pub api_key: String,
    pub base_url: String,
    pub is_oauth: bool,
}

/// The first address that is given, normalized; the default where none is given
/// or the first one is blank.
pub open spec fn chosen_base_url(given: Option<Text>, configured: Option<Text>) -> Text {
    let first = if given is Some {
        given
    } else {
        configured
    };
    match first {
        Some(url) => if trimmed(url).len() > 0 {
            normal_base_url(url)
        } else {
            default_base_url()
        },
        None => default_base_url(),
    }
}

pub open spec fn opt_text(o: Option<&str>) -> Option<Text> {
    match o {
        Some(s) => Some(s@),
        None => None,
    }
}

impl AnthropicAuthConfig {
    /// The configuration for a key: the address given beats the one that the
    /// environment configures, which beats the default.
    pub fn new(api_key: String, base_url: Option<&str>, env_base_url: Option<&str>) -> (r: Self)
        ensures
            r.api_key == api_key,
            r.base_url@ == chosen_base_url(opt_text(base_url), opt_text(env_base_url)),
            r.is_oauth == oauth_token(api_key@),
    {
        let first = match base_url {
            Some(url) => Some(url),
            None => env_base_url,
        };
        let resolved = match first {
            Some(url) => {
                let t = trim_text(url);
                if t.as_str().is_empty() {
                    owned("https://api.anthropic.com")
                } else {
                    normalize_base_url(url)
                }
            },
            None => owned("https://api.anthropic.com"),
        };
        let is_oauth = is_oauth_token(api_key.as_str());
        AnthropicAuthConfig { api_key, base_url: resolved, is_oauth }
    }

    /// Where messages are posted to.
    pub fn messages_url(&self, beta_query: bool) -> (r: String)
        ensures
            r@ == self.base_url@ + "/v1/messages"@ + (if beta_query {
                "?beta=true"@
            } else {
                Seq::empty()
            }),
    {
        let url = joined(self.base_url.as_str(), "/v1/messages");
        if beta_query {
            joined(url.as_str(), "?beta=true")
        } else {
            assert(url@ + Seq::<char>::empty() =~= url@);
            url
        }
    }

    /// The header that carries the key.
    pub fn auth_header(&self) -> (r: (String, String))
        ensures
            self.is_oauth ==> r.0@ == "authorization"@ && r.1@ == "Bearer "@ + self.api_key@,
            !self.is_oauth ==> r.0@ == "x-api-key"@ && r.1@ == self.api_key@,
    {
        if self.is_oauth {
            (owned("authorization"), joined("Bearer ", self.api_key.as_str()))
        } else {
            (owned("x-api-key"), self.api_key.clone())
        }
    }
}

/// Where the store of keys lies, given the data directory and the home directory
/// that the environment names.
pub open spec fn store_path(data_home: Option<Text>, home: Option<Text>) -> Option<Text> {
    if data_home is Some && data_home->0.len() > 0 {
        Some(data_home->0 + "/opencode/auth.json"@)
    } else {
        match home {
            Some(h) => Some(h + "/.local/share"@ + "/opencode/auth.json"@),
            None => None,
        }
    }
}

pub fn auth_store_path(data_home: Option<&str>, home: Option<&str>) -> (r: Option<String>)
    ensures
        r.deep_view() == store_path(opt_text(data_home), opt_text(home)),
{
    let dir = match data_home {
        Some(d) => if d.is_empty() {
            None
        } else {
            Some(owned(d))
        },
        None => None,
    };
    match dir {
        Some(d) => Some(joined(d.as_str(), "/opencode/auth.json")),
        None => match home {
            Some(h) => {
                let d = joined(h, "/.local/share");
                Some(joined(d.as_str(), "/opencode/auth.json"))
            },
            None => None,
        },
    }
}

/// The key of an entry of the store.
pub open spec fn stored_key(store: Text, entry: Text) -> Option<Text> {
    match strict_json(store) {
        Some(v) => key_of_entry(v, entry),
        None => None,
    }
}

pub open spec fn key_of_entry(store: JsonView, entry: Text) -> Option<Text> {
    match field_of(store, entry) {
        Some(e) => text_in(field_of(e, "key"@)),
        None => None,
    }
}

/// The key of an entry in the text of a store.
pub fn opencode_auth_key(store: &str, entry: &str) -> (r: Option<String>)
    ensures
        r.deep_view() == stored_key(store@, entry@),
{
    match parse_strict(store) {
        Some(v) => entry_key(&v, entry),
        None => None,
    }
}

/// The key of an entry in a store.
pub fn entry_key(store: &Json, entry: &str) -> (r: Option<String>)
    ensures
        r.deep_view() == key_of_entry(json_view(*store), entry@),
{
    match store.get(entry) {
        Some(e) => match e.get("key") {
            Some(Json::String(k)) => Some(k.clone()),
            _ => None,
        },
        None => None,
    }
}

/// The text that shows an optional string.
pub open spec fn option_shown(o: Option<Text>) -> Text {
    match o {
        Some(t) => "Some("@ + debug_text(t) + ")"@,
        None => "None"@,
    }
}

fn show_option(o: Option<&str>) -> (r: String)
    ensures
        r@ == option_shown(opt_text(o)),
{
    match o {
        Some(t) => {
            let text = shown(t);
            let opened = joined("Some(", text.as_str());
            joined(opened.as_str(), ")")
        },
        None => owned("None"),
    }
}

/// The first key that holds anything: the explicit one or that of the environment,
/// both trimmed, else that of the store, as it stands.
pub open spec fn chosen_key(explicit: Option<Text>, env_key: Option<Text>, stored: Option<Text>) -> Option<Text> {
    if explicit is Some && trimmed(explicit->0).len() > 0 {
        Some(trimmed(explicit->0))
    } else if env_key is Some && trimmed(env_key->0).len() > 0 {
        Some(trimmed(env_key->0))
    } else if stored is Some && stored->0.len() > 0 {
        stored
    } else {
        None
    }
}

/// The key to use, given what each source holds; `stored` is the key of the
/// store's entry `opencode_entry`.
pub fn resolve_api_key(
    explicit: Option<&str>,
    env_key: Option<&str>,
    opencode_entry: Option<&str>,
    stored: Option<String>,
) -> (r: Result<String, AiError>)
    ensures
        match chosen_key(opt_text(explicit), opt_text(env_key), stored.deep_view()) {
            Some(k) => r is Ok && r->Ok_0@ == k,
            None => r is Err && r->Err_0 is Auth && r->Err_0->Auth_0@ == no_key_text(opt_text(opencode_entry)),
        },
{
    if let Some(key) = explicit {
        let t = trim_text(key);
        if !t.as_str().is_empty() {
            return Ok(t);
        }
    }
    if let Some(key) = env_key {
        let t = trim_text(key);
        if !t.as_str().is_empty() {
            return Ok(t);
        }
    }
    if let Some(key) = stored {
        if !key.as_str().is_empty() {
            return Ok(key);
        }
    }
    let entry = show_option(opencode_entry);
    Err(
        AiError::Auth(
            joined(
                "no API key: pass one explicitly, set ANTHROPIC_API_KEY, or provide opencode auth entry ",
                entry.as_str(),
            ),
        ),
    )
}

pub open spec fn no_key_text(entry: Option<Text>) -> Text {
    "no API key: pass one explicitly, set ANTHROPIC_API_KEY, or provide opencode auth entry "@ + option_shown(entry)
}

proof fn lemma_without_slashes(s: Text)
    ensures
        without_slashes(s).len() <= s.len(),
        without_slashes(s).len() > 0 ==> without_slashes(s).last() != '/',
    decreases s.len(),
{
    if s.len() > 0 && s.last() == '/' {
        lemma_without_slashes(s.drop_last());
    }
}

/// Normalizing an address takes the slashes off its end and then at most one `/v1`,
/// and nothing else but white space.
pub proof fn law_base_url_keeps_prefix(s: Text)
    ensures
        ({
            let t = without_slashes(trimmed(s));
            normal_base_url(s) == t || normal_base_url(s) + "/v1"@ == t
        }),
{
    reveal_strlit("/v1");
    let t = without_slashes(trimmed(s));
    if ends_with_text(t, "/v1"@) {
        assert(normal_base_url(s) + "/v1"@ =~= t);
    }
}

/// The key that is given comes first, then that of the environment, both without white
/// space around them, then the stored one; what is blank does not count.
pub proof fn law_keys_come_in_order(explicit: Option<Text>, env_key: Option<Text>, stored: Option<Text>)
    ensures
        ({
            let a = explicit is Some && trimmed(explicit->0).len() > 0;
            let b = env_key is Some && trimmed(env_key->0).len() > 0;
            let c = stored is Some && stored->0.len() > 0;
            let k = chosen_key(explicit, env_key, stored);
            &&& a ==> k == Some(trimmed(explicit->0))
            &&& !a && b ==> k == Some(trimmed(env_key->0))
            &&& !a && !b && c ==> k == stored
            &&& !a && !b && !c ==> k is None
        }),
{
}

/// A stored key is that of the entry with the name.
pub proof fn law_stored_key_is_that_of_the_entry(store: Text, entry: Text)
    ensures
        strict_json(store) is Some && field_of(strict_json(store)->0, entry) is Some ==> stored_key(store, entry)
            == text_in(field_of(field_of(strict_json(store)->0, entry)->0, "key"@)),
        strict_json(store) is Some && field_of(strict_json(store)->0, entry) is None ==> stored_key(store, entry) is None,
        strict_json(store) is None ==> stored_key(store, entry) is None,
{
}

/// An address is taken without slashes and without the version at its end; the one that
/// is given comes first, then the configured one, and a blank one is the service's own.
pub proof fn law_address_is_taken_as_given(host: Text, given: Option<Text>, configured: Option<Text>)
    requires
        host.len() > 0,
        host.last() != '/',
        trimmed(host) == host,
        !ends_with_text(host, "/v1"@),
    ensures
        normal_base_url(host) == host,
        without_slashes(host.push('/')) == host,
        given == Some(host) ==> chosen_base_url(given, configured) == host,
        given is None && configured == Some(host) ==> chosen_base_url(given, configured) == host,
        given is None && configured is None ==> chosen_base_url(given, configured) == "https://api.anthropic.com"@,
        given is Some && trimmed(given->0).len() == 0 ==> chosen_base_url(given, configured)
            == "https://api.anthropic.com"@,
{
    assert(host.push('/').drop_last() =~= host);
    reveal_with_fuel(without_slashes, 3);
}

/// A token of an account is known by its mark.
pub proof fn law_account_tokens_are_known(a: Text, b: Text)
    ensures
        oauth_token(a + "sk-ant-oat"@ + b),
{
    let m = "sk-ant-oat"@;
    let t = a + m + b;
    assert(t.subrange(a.len() as int, (a.len() + m.len()) as int) =~= m);
    assert(stands_at(t, a.len() as int, m));
}

/// The store lies in the directory for data, where one is set, else under the home
/// directory.
pub proof fn law_store_lies_in_data_directory(data_home: Option<Text>, home: Option<Text>)
    ensures
        data_home is Some && data_home->0.len() > 0 ==> store_path(data_home, home) == Some(
            data_home->0 + "/opencode/auth.json"@,
        ),
        (data_home is None || data_home->0.len() == 0) && home is Some ==> store_path(data_home, home) == Some(
            home->0 + "/.local/share"@ + "/opencode/auth.json"@,
        ),
        (data_home is None || data_home->0.len() == 0) && home is None ==> store_path(data_home, home) is None,
{
}

/// Without a key the error says where one can come from, and under which entry.
pub proof fn law_missing_key_is_told(entry: Text)
    ensures
        no_key_text(None)
            == "no API key: pass one explicitly, set ANTHROPIC_API_KEY, or provide opencode auth entry "@ + "None"@,
        no_key_text(Some(entry))
            == "no API key: pass one explicitly, set ANTHROPIC_API_KEY, or provide opencode auth entry "@ + ("Some("@
            + debug_text(entry) + ")"@),
{
}

} // verus!
