use vstd::prelude::*;

use crate::store::{
    free_of, lemma_rewrite_then_read, pair_value, pair_views, plain_pairs, read_store_value,
    rewrite_content,
    rewrite_store, stored_value,
};
use crate::text::{opt_text, owned, push_str, same_text, trim_white};

verus! {

/// The key of the node's id.
pub open spec fn node_id_key() -> Seq<char> {
    "NODE_ID"@
}

/// The key of the fleet API's base URL.
pub open spec fn api_url_key() -> Seq<char> {
    "API_URL"@
}

/// The key of the token: a refresh token or the current access token.
pub open spec fn auth_token_key() -> Seq<char> {
    "AUTH_TOKEN"@
}

/// The key of the token endpoint's client id.
pub open spec fn client_id_key() -> Seq<char> {
    "AUTH0_CLIENT_ID"@
}

/// The key of the token endpoint's domain.
pub open spec fn client_domain_key() -> Seq<char> {
    "AUTH0_CLIENT_DOMAIN"@
}

/// Values for the store's keys from outside it: the command line, or the
/// process environment.
#[derive(Debug, Clone, PartialEq, Eq, Default)]
pub struct StoreFields {
    pub node_id: Option<String>,
    pub api_url: Option<String>,
    pub auth_token: Option<String>,
    pub auth0_client_id: Option<String>,
    pub auth0_client_domain: Option<String>,
}

/// The credentials that a run works with.
#[derive(Debug, Clone, PartialEq, Eq)]
pub struct CredentialRecord {
    pub node_id: String,
    pub api_url: String,
    pub auth_token: String,
    pub auth0_client_id: Option<String>,
    pub auth0_client_domain: Option<String>,
}

/// The loaded credentials, and the store's new text where the values given
/// from outside differ from the loaded ones.
#[derive(Debug, Clone, PartialEq, Eq)]
pub struct Configuration {
    pub record: CredentialRecord,
    pub rewrite: Option<String>,
}

/// Why the credential store cannot be used; each names a key.
#[derive(Debug, Clone, PartialEq, Eq)]
pub enum ConfigError {
    MissingField { key: String },
    EmptyField { key: String },
}

/// A credential store failure, over the key it names.
pub enum ConfigFault {
    MissingField(Seq<char>),
    EmptyField(Seq<char>),
}

impl ConfigError {
    pub open spec fn fault(self) -> ConfigFault {
        match self {
            ConfigError::MissingField { key } => ConfigFault::MissingField(key@),
            ConfigError::EmptyField { key } => ConfigFault::EmptyField(key@),
        }
    }
}

/// Credentials over their characters.
pub struct RecordModel {
    pub node_id: Seq<char>,
    pub api_url: Seq<char>,
    pub auth_token: Seq<char>,
    pub auth0_client_id: Option<Seq<char>>,
    pub auth0_client_domain: Option<Seq<char>>,
}

/// The characters of an optional string.
pub open spec fn opt_view(o: Option<String>) -> Option<Seq<char>> {
    match o {
        Some(s) => Some(s@),
        None => None,
    }
}

impl CredentialRecord {
    pub open spec fn model(self) -> RecordModel {
        RecordModel {
            node_id: self.node_id@,
            api_url: self.api_url@,
            auth_token: self.auth_token@,
            auth0_client_id: opt_view(self.auth0_client_id),
            auth0_client_domain: opt_view(self.auth0_client_domain),
        }
    }
}

/// No values from outside the store.
pub open spec fn no_fields() -> StoreFields {
    StoreFields {
        node_id: None,
        api_url: None,
        auth_token: None,
        auth0_client_id: None,
        auth0_client_domain: None,
    }
}

/// The value a key has for a run: the environment's, else the store's.
pub open spec fn effective(env: Option<String>, content: Seq<char>, key: Seq<char>) -> Option<
    Seq<char>,
> {
    match env {
        Some(v) => Some(v@),
        None => stored_value(content, key),
    }
}

/// An optional value, where it is not empty.
pub open spec fn non_empty(o: Option<Seq<char>>) -> Option<Seq<char>> {
    match o {
        Some(v) => if v.len() > 0 {
            Some(v)
        } else {
            None
        },
        None => None,
    }
}

/// The credentials that the store's text and the environment give: each of
/// `API_URL`, `AUTH_TOKEN` and `NODE_ID` must be there, then be non-empty; the
/// client id and domain are kept where they are there and non-empty.
pub open spec fn load_record(content: Seq<char>, env: StoreFields) -> Result<
    RecordModel,
    ConfigFault,
> {
    let a = effective(env.api_url, content, api_url_key());
    let t = effective(env.auth_token, content, auth_token_key());
    let n = effective(env.node_id, content, node_id_key());
    if a is None {
        Err(ConfigFault::MissingField(api_url_key()))
    } else if t is None {
        Err(ConfigFault::MissingField(auth_token_key()))
    } else if n is None {
        Err(ConfigFault::MissingField(node_id_key()))
    } else if a->0.len() == 0 {
        Err(ConfigFault::EmptyField(api_url_key()))
    } else if t->0.len() == 0 {
        Err(ConfigFault::EmptyField(auth_token_key()))
    } else if n->0.len() == 0 {
        Err(ConfigFault::EmptyField(node_id_key()))
    } else {
        Ok(
            RecordModel {
                node_id: n->0,
                api_url: a->0,
                auth_token: t->0,
                auth0_client_id: non_empty(
                    effective(env.auth0_client_id, content, client_id_key()),
                ),
                auth0_client_domain: non_empty(
                    effective(env.auth0_client_domain, content, client_domain_key()),
                ),
            },
        )
    }
}

/// The replacement for a key, where a value from outside differs from the
/// loaded one.
pub open spec fn differing(key: Seq<char>, given: Option<String>, current: Option<Seq<char>>) -> Seq<
    (Seq<char>, Seq<char>),
> {
    match given {
        Some(v) => if Some(v@) != current {
            seq![(key, v@)]
        } else {
            Seq::empty()
        },
        None => Seq::empty(),
    }
}

/// The keys, in the store's order, whose value from outside differs from the
/// loaded one, with that value.
pub open spec fn reconcile_pairs(rec: RecordModel, overrides: StoreFields) -> Seq<
    (Seq<char>, Seq<char>),
> {
    differing(node_id_key(), overrides.node_id, Some(rec.node_id)) + differing(
        api_url_key(),
        overrides.api_url,
        Some(rec.api_url),
    ) + differing(auth_token_key(), overrides.auth_token, Some(rec.auth_token)) + differing(
        client_id_key(),
        overrides.auth0_client_id,
        rec.auth0_client_id,
    ) + differing(client_domain_key(), overrides.auth0_client_domain, rec.auth0_client_domain)
}

/// The loaded credentials, and the store's new text where values given from
/// outside differ: only those keys' lines are replaced.
pub open spec fn configuration_outcome(
    content: Seq<char>,
    env: StoreFields,
    overrides: StoreFields,
) -> Result<(RecordModel, Option<Seq<char>>), ConfigFault> {
    match load_record(content, env) {
        Err(f) => Err(f),
        Ok(rec) => {
            let pairs = reconcile_pairs(rec, overrides);
            Ok(
                (
                    rec,
                    if pairs.len() == 0 {
                        None
                    } else {
                        Some(rewrite_content(content, pairs))
                    },
                ),
            )
        },
    }
}

/// The store's text once a rewrite, if any, is written.
pub open spec fn content_after(content: Seq<char>, rewrite: Option<Seq<char>>) -> Seq<char> {
    match rewrite {
        Some(c) => c,
        None => content,
    }
}

/// The text of a new store: the node id, the API URL and the trimmed token.
pub open spec fn creation_text(node_id: Seq<char>, api_url: Seq<char>, auth_token: Seq<char>) -> Seq<
    char,
> {
    "NODE_ID="@ + node_id + seq!['\n'] + "API_URL="@ + api_url + seq!['\n'] + "AUTH_TOKEN="@
        + trim_white(auth_token) + seq!['\n']
}

/// The store's text with the token line replaced.
pub open spec fn token_rewritten(content: Seq<char>, token: Seq<char>) -> Seq<char> {
    rewrite_content(content, seq![(auth_token_key(), token)])
}

/// What to do where the store may not exist: nothing where it does; else the
/// text to create it with, or the first of the node id, the API URL and the
/// token that is not given.
pub open spec fn ensure_outcome(
    store_exists: bool,
    node_id: Option<Seq<char>>,
    api_url: Option<Seq<char>>,
    auth_token: Option<Seq<char>>,
) -> Result<Option<Seq<char>>, ConfigFault> {
    if store_exists {
        Ok(None)
    } else if node_id is None {
        Err(ConfigFault::MissingField(node_id_key()))
    } else if api_url is None {
        Err(ConfigFault::MissingField(api_url_key()))
    } else if auth_token is None {
        Err(ConfigFault::MissingField(auth_token_key()))
    } else {
        Ok(Some(creation_text(node_id->0, api_url->0, auth_token->0)))
    }
}

/// What to do where the store may not exist: nothing where it does; else the
/// text to create it with, which needs the node id, the API URL and the token.
pub fn ensure_config_file(
    store_exists: bool,
    node_id: Option<&str>,
    api_url: Option<&str>,
    auth_token: Option<&str>,
) -> (r: Result<Option<String>, ConfigError>)
    ensures
        match ensure_outcome(store_exists, opt_text(node_id), opt_text(api_url), opt_text(auth_token)) {
            Err(f) => r matches Err(e) && e.fault() == f,
            Ok(None) => r == Ok::<Option<String>, ConfigError>(None),
            Ok(Some(text)) => r matches Ok(Some(t)) && t@ == text,
        },
{
    if store_exists {
        return Ok(None);
    }
    let n = match node_id {
        Some(n) => n,
        None => {
            return Err(ConfigError::MissingField { key: owned("NODE_ID") });
        },
    };
    let a = match api_url {
        Some(a) => a,
        None => {
            return Err(ConfigError::MissingField { key: owned("API_URL") });
        },
    };
    let t = match auth_token {
        Some(t) => t,
        None => {
            return Err(ConfigError::MissingField { key: owned("AUTH_TOKEN") });
        },
    };
    let mut text = owned("NODE_ID=");
    push_str(&mut text, n);
    text.push('\n');
    push_str(&mut text, "API_URL=");
    push_str(&mut text, a);
    text.push('\n');
    push_str(&mut text, "AUTH_TOKEN=");
    push_str(&mut text, t.trim());
    text.push('\n');
    Ok(Some(text))
}

/// The value a key has for a run: the environment's, else the store's.
fn effective_value(env: &Option<String>, content: &str, key: &str) -> (r: Option<String>)
    ensures
        opt_view(r) == effective(*env, content@, key@),
{
    match env {
        Some(v) => Some(v.clone()),
        None => read_store_value(content, key),
    }
}

/// An optional value, where it is not empty.
fn keep_non_empty(o: Option<String>) -> (r: Option<String>)
    ensures
        opt_view(r) == non_empty(opt_view(o)),
{
    match o {
        Some(v) => if !v.as_str().is_empty() {
            Some(v)
        } else {
            None
        },
        None => None,
    }
}

/// Adds the replacement for a key, where a value from outside differs from
/// the loaded one.
fn push_differing(
    pairs: &mut Vec<(String, String)>,
    key: &str,
    given: &Option<String>,
    current: &Option<String>,
)
    ensures
        pair_views(final(pairs)@) == pair_views(old(pairs)@) + differing(
            key@,
            *given,
            opt_view(*current),
        ),
{
    let ghost start = pair_views(pairs@);
    match given {
        Some(v) => {
            let same = match current {
                Some(c) => same_text(v.as_str(), c.as_str()),
                None => false,
            };
            if !same {
                pairs.push((owned(key), v.clone()));
                assert(pair_views(pairs@) =~= start + seq![(key@, v@)]);
            } else {
                assert(pair_views(pairs@) =~= start + Seq::empty());
            }
        },
        None => {
            assert(pair_views(pairs@) =~= start + Seq::empty());
        },
    }
}

/// Loads the credentials from the store's text and the environment, and
/// reconciles them with the values given on the command line: where one
/// differs, the store's new text replaces that key's line.
pub fn lookup_configuration(content: &str, environment: &StoreFields, overrides: &StoreFields) -> (r:
    Result<Configuration, ConfigError>)
    ensures
        match configuration_outcome(content@, *environment, *overrides) {
            Err(f) => r matches Err(e) && e.fault() == f,
            Ok((rec, rewrite)) => r matches Ok(c) && c.record.model() == rec && opt_view(c.rewrite)
                == rewrite,
        },
{
    let a = effective_value(&environment.api_url, content, "API_URL");
    let t = effective_value(&environment.auth_token, content, "AUTH_TOKEN");
    let n = effective_value(&environment.node_id, content, "NODE_ID");
    let api_url = match a {
        Some(v) => v,
        None => {
            return Err(ConfigError::MissingField { key: owned("API_URL") });
        },
    };
    let auth_token = match t {
        Some(v) => v,
        None => {
            return Err(ConfigError::MissingField { key: owned("AUTH_TOKEN") });
        },
    };
    let node_id = match n {
        Some(v) => v,
        None => {
            return Err(ConfigError::MissingField { key: owned("NODE_ID") });
        },
    };
    if api_url.as_str().is_empty() {
        return Err(ConfigError::EmptyField { key: owned("API_URL") });
    }
    if auth_token.as_str().is_empty() {
        return Err(ConfigError::EmptyField { key: owned("AUTH_TOKEN") });
    }
    if node_id.as_str().is_empty() {
        return Err(ConfigError::EmptyField { key: owned("NODE_ID") });
    }
    let auth0_client_id = keep_non_empty(
        effective_value(&environment.auth0_client_id, content, "AUTH0_CLIENT_ID"),
    );
    let auth0_client_domain = keep_non_empty(
        effective_value(&environment.auth0_client_domain, content, "AUTH0_CLIENT_DOMAIN"),
    );
    let record = CredentialRecord { node_id, api_url, auth_token, auth0_client_id, auth0_client_domain };
    let ghost rec = record.model();
    let mut pairs: Vec<(String, String)> = Vec::new();
    assert(pair_views(pairs@) =~= Seq::empty());
    push_differing(&mut pairs, "NODE_ID", &overrides.node_id, &Some(record.node_id.clone()));
    push_differing(&mut pairs, "API_URL", &overrides.api_url, &Some(record.api_url.clone()));
    push_differing(&mut pairs, "AUTH_TOKEN", &overrides.auth_token, &Some(record.auth_token.clone()));
    push_differing(&mut pairs, "AUTH0_CLIENT_ID", &overrides.auth0_client_id, &record.auth0_client_id);
    push_differing(
        &mut pairs,
        "AUTH0_CLIENT_DOMAIN",
        &overrides.auth0_client_domain,
        &record.auth0_client_domain,
    );
    assert(pair_views(pairs@) =~= reconcile_pairs(rec, *overrides));
    let rewrite = if pairs.len() == 0 {
        None
    } else {
        Some(rewrite_store(content, &pairs))
    };
    Ok(Configuration { record, rewrite })
}

/// The store's text with the token line replaced by the rotated token; every
/// other line is kept.
pub fn write_new_auth_token(content: &str, new_auth_token: &str) -> (r: String)
    ensures
        r@ == token_rewritten(content@, new_auth_token@),
{
    let mut pairs: Vec<(String, String)> = Vec::new();
    pairs.push((owned("AUTH_TOKEN"), owned(new_auth_token)));
    assert(pair_views(pairs@) =~= seq![(auth_token_key(), new_auth_token@)]);
    rewrite_store(content, &pairs)
}

/// Loading the store with no values from the command line never rewrites it,
/// so loading the same text a second time gives the same credentials, or the
/// same failure.
pub proof fn lemma_load_idempotent(content: Seq<char>, env: StoreFields)
    ensures
        match configuration_outcome(content, env, no_fields()) {
            Ok((rec, rewrite)) => rewrite is None && configuration_outcome(
                content_after(content, rewrite),
                env,
                no_fields(),
            ) == configuration_outcome(content, env, no_fields()),
            Err(_) => true,
        },
{
    if let Ok(rec) = load_record(content, env) {
        assert(reconcile_pairs(rec, no_fields()) =~= Seq::empty());
    }
}

/// Whether a key holds no `=` and no line break.
pub open spec fn plain_key(k: Seq<char>) -> bool {
    free_of(k, '=') && free_of(k, '\n') && free_of(k, '\r')
}

proof fn lemma_keys_plain()
    ensures
        plain_key(node_id_key()),
        plain_key(api_url_key()),
        plain_key(auth_token_key()),
        plain_key(client_id_key()),
        plain_key(client_domain_key()),
        node_id_key() != api_url_key(),
        node_id_key() != auth_token_key(),
        node_id_key() != client_id_key(),
        node_id_key() != client_domain_key(),
        api_url_key() != auth_token_key(),
        api_url_key() != client_id_key(),
        api_url_key() != client_domain_key(),
        auth_token_key() != client_id_key(),
        auth_token_key() != client_domain_key(),
        client_id_key() != client_domain_key(),
{
    reveal_strlit("AUTH_TOKEN");
    reveal_strlit("NODE_ID");
    reveal_strlit("API_URL");
    reveal_strlit("AUTH0_CLIENT_ID");
    reveal_strlit("AUTH0_CLIENT_DOMAIN");
    assert(node_id_key()[0] != api_url_key()[0]);
    assert(node_id_key().len() != auth_token_key().len());
    assert(api_url_key().len() != auth_token_key().len());
    assert(client_id_key().len() != auth_token_key().len());
    assert(client_domain_key().len() != auth_token_key().len());
}

/// Persisting a rotated token and loading the store again gives exactly that
/// token, and every other field as before; this holds for a store without
/// carriage returns, a non-empty token without line breaks, and an environment
/// that does not set the token itself.
pub proof fn lemma_persist_round_trip(content: Seq<char>, env: StoreFields, token: Seq<char>)
    requires
        free_of(content, '\r'),
        free_of(token, '\n'),
        free_of(token, '\r'),
        token.len() > 0,
        env.auth_token is None,
        load_record(content, env) is Ok,
    ensures
        load_record(token_rewritten(content, token), env) == Ok::<RecordModel, ConfigFault>(
            RecordModel { auth_token: token, ..load_record(content, env)->Ok_0 },
        ),
{
    lemma_keys_plain();
    let k = auth_token_key();
    let pairs = seq![(k, token)];
    assert(plain_pairs(pairs));
    assert(pair_value(pairs, k) == Some(token));
    assert(pairs.drop_first() =~= Seq::<(Seq<char>, Seq<char>)>::empty());
    assert(forall|key: Seq<char>| pair_value(pairs.drop_first(), key) is None);
    assert forall|key: Seq<char>| key != k implies pair_value(pairs, key) is None by {
        assert(pairs[0].0 == k);
        assert(pair_value(pairs.drop_first(), key) is None);
    }
    lemma_rewrite_then_read(content, pairs, k);
    lemma_rewrite_then_read(content, pairs, node_id_key());
    lemma_rewrite_then_read(content, pairs, api_url_key());
    lemma_rewrite_then_read(content, pairs, client_id_key());
    lemma_rewrite_then_read(content, pairs, client_domain_key());
}

/// A value given from outside: non-empty and without line breaks, where given.
pub open spec fn plain_given(o: Option<String>) -> bool {
    match o {
        Some(v) => v@.len() > 0 && free_of(v@, '\n') && free_of(v@, '\r'),
        None => true,
    }
}

/// The value given from outside, else `current`.
pub open spec fn given_or(o: Option<String>, current: Seq<char>) -> Seq<char> {
    match o {
        Some(v) => v@,
        None => current,
    }
}

proof fn lemma_pair_value_concat(
    a: Seq<(Seq<char>, Seq<char>)>,
    b: Seq<(Seq<char>, Seq<char>)>,
    key: Seq<char>,
)
    ensures
        pair_value(a + b, key) == match pair_value(a, key) {
            Some(v) => Some(v),
            None => pair_value(b, key),
        },
    decreases a.len(),
{
    if a.len() == 0 {
        assert(a + b =~= b);
    } else {
        assert((a + b)[0] == a[0]);
        assert((a + b).drop_first() =~= a.drop_first() + b);
        lemma_pair_value_concat(a.drop_first(), b, key);
    }
}

proof fn lemma_differing(key: Seq<char>, given: Option<String>, current: Option<Seq<char>>, k: Seq<char>)
    requires
        plain_key(key),
        plain_given(given),
    ensures
        plain_pairs(differing(key, given, current)),
        pair_value(differing(key, given, current), k) == if key == k {
            match given {
                Some(v) => if Some(v@) != current {
                    Some(v@)
                } else {
                    None
                },
                None => None,
            }
        } else {
            None::<Seq<char>>
        },
{
    let d = differing(key, given, current);
    if d.len() > 0 {
        assert(d.drop_first() =~= Seq::<(Seq<char>, Seq<char>)>::empty());
        assert(pair_value(d.drop_first(), k) is None);
    }
}

proof fn lemma_plain_concat(a: Seq<(Seq<char>, Seq<char>)>, b: Seq<(Seq<char>, Seq<char>)>)
    requires
        plain_pairs(a),
        plain_pairs(b),
    ensures
        plain_pairs(a + b),
{
    assert forall|i: int| 0 <= i < (a + b).len() implies free_of(#[trigger] (a + b)[i].0, '=')
        && free_of((a + b)[i].0, '\n') && free_of((a + b)[i].0, '\r') && free_of(
        (a + b)[i].1,
        '\n',
    ) && free_of((a + b)[i].1, '\r') by {
        if i < a.len() {
            assert((a + b)[i] == a[i]);
        } else {
            assert((a + b)[i] == b[i - a.len()]);
        }
    }
}

/// The replacement of `key` among the reconciled pairs: the first segment's
/// that holds one.
proof fn lemma_reconcile_lookup(rec: RecordModel, overrides: StoreFields, key: Seq<char>)
    requires
        plain_given(overrides.node_id),
        plain_given(overrides.api_url),
        plain_given(overrides.auth_token),
        plain_given(overrides.auth0_client_id),
        plain_given(overrides.auth0_client_domain),
    ensures
        plain_pairs(reconcile_pairs(rec, overrides)),
        key == node_id_key() || key == api_url_key() || key == auth_token_key() ==> pair_value(
            reconcile_pairs(rec, overrides),
            key,
        ) == pair_value(
            if key == node_id_key() {
                differing(node_id_key(), overrides.node_id, Some(rec.node_id))
            } else if key == api_url_key() {
                differing(api_url_key(), overrides.api_url, Some(rec.api_url))
            } else {
                differing(auth_token_key(), overrides.auth_token, Some(rec.auth_token))
            },
            key,
        ),
{
    lemma_keys_plain();
    let d1 = differing(node_id_key(), overrides.node_id, Some(rec.node_id));
    let d2 = differing(api_url_key(), overrides.api_url, Some(rec.api_url));
    let d3 = differing(auth_token_key(), overrides.auth_token, Some(rec.auth_token));
    let d4 = differing(client_id_key(), overrides.auth0_client_id, rec.auth0_client_id);
    let d5 = differing(client_domain_key(), overrides.auth0_client_domain, rec.auth0_client_domain);
    lemma_differing(node_id_key(), overrides.node_id, Some(rec.node_id), key);
    lemma_differing(api_url_key(), overrides.api_url, Some(rec.api_url), key);
    lemma_differing(auth_token_key(), overrides.auth_token, Some(rec.auth_token), key);
    lemma_differing(client_id_key(), overrides.auth0_client_id, rec.auth0_client_id, key);
    lemma_differing(client_domain_key(), overrides.auth0_client_domain, rec.auth0_client_domain, key);
    lemma_pair_value_concat(d1, d2, key);
    lemma_pair_value_concat(d1 + d2, d3, key);
    lemma_pair_value_concat(d1 + d2 + d3, d4, key);
    lemma_pair_value_concat(d1 + d2 + d3 + d4, d5, key);
    lemma_plain_concat(d1, d2);
    lemma_plain_concat(d1 + d2, d3);
    lemma_plain_concat(d1 + d2 + d3, d4);
    lemma_plain_concat(d1 + d2 + d3 + d4, d5);
}

/// Where the command line gives a value that differs, the store is rewritten
/// to hold it: loading the store's text afterwards gives the node id, the API
/// URL and the token given on the command line, or those loaded before where
/// none was given. This holds for a store without carriage returns, given
/// values that are non-empty and hold no line break, and an environment that
/// sets none of the keys.
pub proof fn lemma_reconcile_sticks(content: Seq<char>, overrides: StoreFields)
    requires
        free_of(content, '\r'),
        plain_given(overrides.node_id),
        plain_given(overrides.api_url),
        plain_given(overrides.auth_token),
        plain_given(overrides.auth0_client_id),
        plain_given(overrides.auth0_client_domain),
    ensures
        match configuration_outcome(content, no_fields(), overrides) {
            Ok((rec, rewrite)) => load_record(content_after(content, rewrite), no_fields()) matches Ok(
                again,
            ) && again.node_id == given_or(overrides.node_id, rec.node_id) && again.api_url
                == given_or(overrides.api_url, rec.api_url) && again.auth_token == given_or(
                overrides.auth_token,
                rec.auth_token,
            ),
            Err(_) => true,
        },
{
    lemma_keys_plain();
    if let Ok(rec) = load_record(content, no_fields()) {
        let pairs = reconcile_pairs(rec, overrides);
        lemma_reconcile_lookup(rec, overrides, node_id_key());
        lemma_reconcile_lookup(rec, overrides, api_url_key());
        lemma_reconcile_lookup(rec, overrides, auth_token_key());
        lemma_differing(node_id_key(), overrides.node_id, Some(rec.node_id), node_id_key());
        lemma_differing(api_url_key(), overrides.api_url, Some(rec.api_url), api_url_key());
        lemma_differing(auth_token_key(), overrides.auth_token, Some(rec.auth_token), auth_token_key());
        if pairs.len() > 0 {
            lemma_rewrite_then_read(content, pairs, node_id_key());
            lemma_rewrite_then_read(content, pairs, api_url_key());
            lemma_rewrite_then_read(content, pairs, auth_token_key());
        } else {
            assert(pair_value(pairs, node_id_key()) is None);
            assert(pair_value(pairs, api_url_key()) is None);
            assert(pair_value(pairs, auth_token_key()) is None);
        }
    }
}

} // verus!
