//! Personal access tokens from the keychain: which slot has one, whether it may be
//! used, and what is known about it.

use vstd::prelude::*;
use vstd::utf8::*;

use crate::cli::PatAddArgs;
use crate::dates::parse_rfc3339;
use crate::envfile::read_env_file;
use crate::envfile::set_env;
use crate::envfile::EnvMap;
use crate::hashes::hex;
use crate::hashes::sha256;
use crate::lines::trim;
use crate::paths::join_path;
use crate::paths::ManagerPaths;
use crate::slot::validate_slot_name;
use crate::text::chars_of;
use crate::text::concat2;
use crate::text::concat3;
use crate::text::concat4;
use crate::text::same;
use crate::text::string_of;
use crate::text::sub_chars;
use crate::text::text_starts_with;

verus! {

/// Where a slot's token is kept.
#[derive(Debug)]
pub struct KeychainConf {
    pub service: String,
    pub account: String,
}

/// What is known about a token.
#[derive(Debug)]
pub struct SlotAuthMetadata {
    pub email: Option<String>,
    pub account_id: String,
    pub fedramp: bool,
    pub authapi_base_url: String,
    pub pat_fingerprint: String,
    pub cached_at: String,
}

/// Why nothing is known about a token.
#[derive(Debug)]
pub enum HydrateError {
    Revoked(String),
    Transient(String),
}

impl HydrateError {
    /// The reason in words.
    pub open spec fn text(self) -> Seq<char> {
        match self {
            HydrateError::Revoked(message) => message@,
            HydrateError::Transient(message) => message@,
        }
    }

    /// The reason in words.
    pub fn message(&self) -> (out: String)
        ensures
            out@ == self.text(),
    {
        match self {
            HydrateError::Revoked(message) => message.clone(),
            HydrateError::Transient(message) => message.clone(),
        }
    }
}

// ---------------------------------------------------------------------------
// The file that binds a token
// ---------------------------------------------------------------------------

/// Where a token is kept, over mathematical values: service and account.
pub open spec fn conf_model(conf: KeychainConf) -> (Seq<char>, Seq<char>) {
    (conf.service@, conf.account@)
}

/// Where the token of a slot is kept, by the content of its file.
pub open spec fn conf_of(content: Option<Seq<char>>) -> Result<
    Option<(Seq<char>, Seq<char>)>,
    Seq<char>,
> {
    match content {
        None => Ok(None),
        Some(text) => {
            let vars = crate::envfile::env_of_lines(crate::lines::lines_of(text));
            if !vars.dom().contains("service"@) {
                Err("keychain.conf missing `service`"@)
            } else if !vars.dom().contains("account"@) {
                Err("keychain.conf missing `account`"@)
            } else {
                Ok(Some((vars["service"@], vars["account"@])))
            }
        },
    }
}

/// The outcome of reading where a token is kept, over mathematical values.
pub open spec fn conf_result(out: Result<Option<KeychainConf>, String>) -> Result<
    Option<(Seq<char>, Seq<char>)>,
    Seq<char>,
> {
    match out {
        Ok(Some(conf)) => Ok(Some(conf_model(conf))),
        Ok(None) => Ok(None),
        Err(message) => Err(message@),
    }
}

/// Where the token of a slot is kept.
pub fn read_keychain_conf(content: &Option<String>) -> (out: Result<Option<KeychainConf>, String>)
    ensures
        conf_result(out) == conf_of(crate::text::opt_text(*content)),
{
    match content {
        None => Ok(None),
        Some(text) => {
            let vars = read_env_file(text.as_str());
            let ghost env = crate::envfile::env_of(vars);
            proof {
                assert(env.dom() =~= vars@.dom());
            }
            let service = match vars.get("service") {
                Some(service) => service.clone(),
                None => {
                    return Err(String::from_str("keychain.conf missing `service`"));
                },
            };
            let account = match vars.get("account") {
                Some(account) => account.clone(),
                None => {
                    return Err(String::from_str("keychain.conf missing `account`"));
                },
            };
            Ok(Some(KeychainConf { service, account }))
        },
    }
}

/// The content of the file that binds a token.
pub fn keychain_conf_text(service: &str, account: &str) -> (out: String)
    ensures
        out@ == "service="@ + service@ + "\naccount="@ + account@ + "\n"@,
{
    let head = concat4("service=", service, "\naccount=", account);
    concat2(head.as_str(), "\n")
}

/// Where a slot keeps what is known about its token.
pub fn keychain_meta_path(slot_dir: &str) -> (out: String)
    ensures
        out@ == crate::paths::joined_path(slot_dir@, "keychain-meta.json"@),
{
    join_path(slot_dir, "keychain-meta.json")
}

/// Where a slot says where its token is kept.
pub fn keychain_conf_path(slot_dir: &str) -> (out: String)
    ensures
        out@ == crate::paths::joined_path(slot_dir@, "keychain.conf"@),
{
    join_path(slot_dir, "keychain.conf")
}

/// The seconds that the keychain and the network are waited for.
pub fn whoami_timeout() -> (out: u64)
    ensures
        out == 10,
{
    10
}

// ---------------------------------------------------------------------------
// Using a token
// ---------------------------------------------------------------------------

/// Whether `token` is a personal access token.
pub open spec fn is_access_token(token: Seq<char>) -> bool {
    crate::text::has_prefix(token, "at-"@)
}

/// Whether `token` is a personal access token.
pub fn is_pat(token: &str) -> (out: bool)
    ensures
        out == is_access_token(token@),
{
    text_starts_with(token, "at-")
}

/// `s` without line ends and spaces at its end.
pub open spec fn without_line_end(s: Seq<char>) -> Seq<char>
    decreases s.len(),
{
    if s.len() > 0 && (s.last() == '\n' || s.last() == '\r' || s.last() == ' ') {
        without_line_end(s.drop_last())
    } else {
        s
    }
}

/// The token that the keychain printed, if it printed any.
pub fn pat_from_output(output: &str) -> (out: Option<String>)
    ensures
        match out {
            Some(token) => token@ == without_line_end(output@) && token@.len() > 0,
            None => without_line_end(output@).len() == 0,
        },
{
    let chars = chars_of(output);
    let mut n: usize = chars.len();
    proof {
        assert(chars@.take(chars@.len() as int) =~= chars@);
    }
    while n > 0 && (chars[n - 1] == '\n' || chars[n - 1] == '\r' || chars[n - 1] == ' ')
        invariant
            n <= chars.len(),
            chars@ == output@,
            without_line_end(output@) == without_line_end(chars@.take(n as int)),
        decreases n,
    {
        proof {
            assert(chars@.take(n as int).drop_last() =~= chars@.take(n - 1));
        }
        n -= 1;
    }
    let token = sub_chars(&chars, 0, n);
    proof {
        assert(token@ =~= chars@.take(n as int));
    }
    if n == 0 {
        None
    } else {
        Some(string_of(&token))
    }
}

/// Whether another login is already set: in the variables of a slot, or in the
/// environment that `cx` was started in.
pub open spec fn logins_conflict(
    envs: Map<Seq<char>, Seq<char>>,
    parent: Seq<Seq<char>>,
) -> bool {
    envs.dom().contains("CODEX_ACCESS_TOKEN"@) || envs.dom().contains("CODEX_API_KEY"@)
        || envs.dom().contains("OPENAI_API_KEY"@) || parent.contains("CODEX_API_KEY"@)
        || parent.contains("OPENAI_API_KEY"@)
}

fn lists(names: &Vec<String>, name: &str) -> (out: bool)
    ensures
        out == crate::text::texts(names@).contains(name@),
{
    let ghost all = crate::text::texts(names@);
    let mut i: usize = 0;
    while i < names.len()
        invariant
            i <= names.len(),
            all == crate::text::texts(names@),
            forall|j: int| 0 <= j < i ==> #[trigger] all[j] != name@,
        decreases names.len() - i,
    {
        if same(names[i].as_str(), name) {
            proof {
                assert(all[i as int] == name@);
            }
            return true;
        }
        i += 1;
    }
    false
}

/// Whether another login is already set. `parent` names the variables that are set
/// and not empty in the environment that `cx` was started in.
pub fn auth_env_conflicts(envs: &EnvMap, parent: &Vec<String>) -> (out: bool)
    ensures
        out == logins_conflict(crate::envfile::env_of(*envs), crate::text::texts(parent@)),
{
    proof {
        assert(crate::envfile::env_of(*envs).dom() =~= envs@.dom());
    }
    envs.contains_key("CODEX_ACCESS_TOKEN") || envs.contains_key("CODEX_API_KEY")
        || envs.contains_key("OPENAI_API_KEY") || lists(parent, "CODEX_API_KEY") || lists(
        parent,
        "OPENAI_API_KEY",
    )
}

/// Why a token is not used next to another login.
pub open spec fn conflict_text(slot: Seq<char>) -> Seq<char> {
    "slot "@ + slot
        + ": CODEX_ACCESS_TOKEN, CODEX_API_KEY, or OPENAI_API_KEY already set in env.conf/target, or CODEX_API_KEY/OPENAI_API_KEY already set in parent environment; remove one auth source (keychain.conf is also present)"@
}

/// The entry of the keychain in words.
pub open spec fn entry_text(service: Seq<char>, account: Seq<char>) -> Seq<char> {
    "Keychain entry "@ + service + "/"@ + account
}

/// The token to use, given what the keychain answered, or why there is none.
pub open spec fn checked_token(
    service: Seq<char>,
    account: Seq<char>,
    fetched: Result<Option<Seq<char>>, Seq<char>>,
) -> Result<Seq<char>, Seq<char>> {
    match fetched {
        Err(message) => Err(message),
        Ok(None) => Err(
            entry_text(service, account) + " not found; run `keychain-secret set "@ + service
                + " "@ + account + "`"@,
        ),
        Ok(Some(token)) => if is_access_token(token) {
            Ok(token)
        } else {
            Err(
                entry_text(service, account)
                    + " does not contain a PAT (expected `at-` prefix)"@,
            )
        },
    }
}

/// What the keychain answered, over mathematical values.
pub open spec fn fetched_model(fetched: Result<Option<String>, String>) -> Result<
    Option<Seq<char>>,
    Seq<char>,
> {
    match fetched {
        Ok(token) => Ok(crate::text::opt_text(token)),
        Err(message) => Err(message@),
    }
}

/// The token to use, given what the keychain answered, or why there is none.
pub fn check_token(conf: &KeychainConf, fetched: Result<Option<String>, String>) -> (out: Result<
    String,
    String,
>)
    ensures
        crate::envfile::result_text(out) == checked_token(
            conf.service@,
            conf.account@,
            fetched_model(fetched),
        ),
{
    let service = conf.service.as_str();
    let account = conf.account.as_str();
    let entry = concat4("Keychain entry ", service, "/", account);
    match fetched {
        Err(message) => Err(message),
        Ok(None) => {
            let head = concat4(
                entry.as_str(),
                " not found; run `keychain-secret set ",
                service,
                " ",
            );
            Err(concat3(head.as_str(), account, "`"))
        },
        Ok(Some(token)) => if is_pat(token.as_str()) {
            Ok(token)
        } else {
            Err(concat2(entry.as_str(), " does not contain a PAT (expected `at-` prefix)"))
        },
    }
}

/// The variables with a token from the keychain, given what the keychain answered.
pub open spec fn with_token(
    slot: Seq<char>,
    envs: Map<Seq<char>, Seq<char>>,
    conf: (Seq<char>, Seq<char>),
    parent: Seq<Seq<char>>,
    fetched: Result<Option<Seq<char>>, Seq<char>>,
) -> Result<Map<Seq<char>, Seq<char>>, Seq<char>> {
    if logins_conflict(envs, parent) {
        Err(conflict_text(slot))
    } else {
        match checked_token(conf.0, conf.1, fetched) {
            Err(message) => Err(message),
            Ok(token) => Ok(envs.insert("CODEX_ACCESS_TOKEN"@, token)),
        }
    }
}

/// The variables that are left behind: as computed, or unchanged after a failure.
pub open spec fn left_behind(
    envs: Map<Seq<char>, Seq<char>>,
    outcome: Result<Map<Seq<char>, Seq<char>>, Seq<char>>,
) -> Map<Seq<char>, Seq<char>> {
    match outcome {
        Ok(changed) => changed,
        Err(_) => envs,
    }
}

/// Whether a call left `after` behind and returned `out` as `outcome` says.
pub open spec fn matches_outcome(
    before: Map<Seq<char>, Seq<char>>,
    after: Map<Seq<char>, Seq<char>>,
    out: Result<(), String>,
    outcome: Result<Map<Seq<char>, Seq<char>>, Seq<char>>,
) -> bool {
    &&& after == left_behind(before, outcome)
    &&& match (out, outcome) {
        (Ok(_), Ok(_)) => true,
        (Err(message), Err(reason)) => message@ == reason,
        _ => false,
    }
}

/// Whether the call left `after` behind and returned `out` for an answer that
/// `fetch` may give when it is asked for the entry `conf`.
pub open spec fn follows_answer<F: FnOnce(&str, &str) -> Result<Option<String>, String>>(
    fetch: F,
    slot: Seq<char>,
    before: Map<Seq<char>, Seq<char>>,
    after: Map<Seq<char>, Seq<char>>,
    conf: (Seq<char>, Seq<char>),
    parent: Seq<Seq<char>>,
    out: Result<(), String>,
) -> bool {
    exists|s: &str, a: &str, fetched: Result<Option<String>, String>|
        {
            &&& s@ == conf.0
            &&& a@ == conf.1
            &&& #[trigger] call_ensures(fetch, (s, a), fetched)
            &&& matches_outcome(
                before,
                after,
                out,
                with_token(slot, before, conf, parent, fetched_model(fetched)),
            )
        }
}

/// Adds a token from the keychain to the variables of a slot. The keychain is only
/// asked where no other login is set.
pub fn inject_pat_env_from_conf<F: FnOnce(&str, &str) -> Result<Option<String>, String>>(
    slot: &str,
    envs: &mut EnvMap,
    conf: &KeychainConf,
    parent: &Vec<String>,
    fetch: F,
) -> (out: Result<(), String>)
    requires
        forall|s: &str, a: &str| #[trigger] call_requires(fetch, (s, a)),
    ensures
        ({
            let before = crate::envfile::env_of(*old(envs));
            let after = crate::envfile::env_of(*final(envs));
            let names = crate::text::texts(parent@);
            if logins_conflict(before, names) {
                matches_outcome(before, after, out, Err(conflict_text(slot@)))
            } else {
                follows_answer(fetch, slot@, before, after, conf_model(*conf), names, out)
            }
        }),
{
    if auth_env_conflicts(envs, parent) {
        return Err(
            concat3(
                "slot ",
                slot,
                ": CODEX_ACCESS_TOKEN, CODEX_API_KEY, or OPENAI_API_KEY already set in env.conf/target, or CODEX_API_KEY/OPENAI_API_KEY already set in parent environment; remove one auth source (keychain.conf is also present)",
            ),
        );
    }
    let service = conf.service.as_str();
    let account = conf.account.as_str();
    let fetched = fetch(service, account);
    let ghost answer = fetched;
    proof {
        assert(call_ensures(fetch, (service, account), answer));
    }
    match check_token(conf, fetched) {
        Err(message) => Err(message),
        Ok(token) => {
            set_env(envs, "CODEX_ACCESS_TOKEN", token.as_str());
            Ok(())
        },
    }
}

/// Whether a call left `after` behind and returned `out` for a slot whose keychain
/// file holds `conf_content`: an error for a file that cannot be read, nothing for
/// no file, and else what follows from the answer of the keychain.
pub open spec fn follows_keychain<F: FnOnce(&str, &str) -> Result<Option<String>, String>>(
    fetch: F,
    conf_content: Option<Seq<char>>,
    slot: Seq<char>,
    before: Map<Seq<char>, Seq<char>>,
    after: Map<Seq<char>, Seq<char>>,
    parent: Seq<Seq<char>>,
    out: Result<(), String>,
) -> bool {
    match conf_of(conf_content) {
        Err(reason) => matches_outcome(before, after, out, Err(reason)),
        Ok(None) => matches_outcome(before, after, out, Ok(before)),
        Ok(Some(conf)) => if logins_conflict(before, parent) {
            matches_outcome(before, after, out, Err(conflict_text(slot)))
        } else {
            follows_answer(fetch, slot, before, after, conf, parent, out)
        },
    }
}

/// Adds a token from the keychain to the variables of a slot, if its file binds one.
pub fn inject_pat_env_from_keychain<F: FnOnce(&str, &str) -> Result<Option<String>, String>>(
    conf_content: &Option<String>,
    slot: &str,
    envs: &mut EnvMap,
    parent: &Vec<String>,
    fetch: F,
) -> (out: Result<(), String>)
    requires
        forall|s: &str, a: &str| #[trigger] call_requires(fetch, (s, a)),
    ensures
        follows_keychain(
            fetch,
            crate::text::opt_text(*conf_content),
            slot@,
            crate::envfile::env_of(*old(envs)),
            crate::envfile::env_of(*final(envs)),
            crate::text::texts(parent@),
            out,
        ),
{
    match read_keychain_conf(conf_content) {
        Err(message) => Err(message),
        Ok(None) => Ok(()),
        Ok(Some(conf)) => inject_pat_env_from_conf(slot, envs, &conf, parent, fetch),
    }
}

/// A token from the keychain never replaces another login, and nothing but the
/// token is set.
pub proof fn tokens_replace_no_login(
    slot: Seq<char>,
    envs: Map<Seq<char>, Seq<char>>,
    conf: (Seq<char>, Seq<char>),
    parent: Seq<Seq<char>>,
    fetched: Result<Option<Seq<char>>, Seq<char>>,
    key: Seq<char>,
)
    ensures
        with_token(slot, envs, conf, parent, fetched) matches Ok(changed) ==> {
            &&& !envs.dom().contains("CODEX_ACCESS_TOKEN"@)
            &&& is_access_token(changed["CODEX_ACCESS_TOKEN"@])
            &&& key != "CODEX_ACCESS_TOKEN"@ ==> changed.dom().contains(key)
                == envs.dom().contains(key) && changed[key] == envs[key]
        },
{
}

// ---------------------------------------------------------------------------
// What is known about a token
// ---------------------------------------------------------------------------

/// What stands for a token without giving it away, by its digest.
pub open spec fn fingerprint_text(digest: Seq<u8>) -> Seq<char> {
    "sha256:"@ + crate::hashes::hex_of(digest).take(16)
}

/// What stands for a token without giving it away, by its digest.
pub fn fingerprint_of(digest: &Vec<u8>) -> (out: String)
    requires
        digest@.len() >= 8,
    ensures
        out@ == fingerprint_text(digest@),
{
    let digits = hex(digest.as_slice());
    let head = sub_chars(&digits, 0, 16);
    proof {
        assert(head@ =~= crate::hashes::hex_of(digest@).take(16));
    }
    concat2("sha256:", string_of(&head).as_str())
}

/// What stands for a token without giving it away.
pub fn pat_fingerprint(pat: &str) -> (out: String)
    ensures
        out@ == fingerprint_text(crate::hashes::sha256_of(encode_utf8(pat@))),
{
    fingerprint_of(&sha256(pat.as_bytes()))
}

/// When the file that binds a token was last changed.
#[derive(Clone, Copy, Debug)]
pub enum ConfTime {
    Unknown,
    BeforeEpoch,
    /// In seconds since 1970.
    At(i64),
}

/// The last second that a time can name.
pub const LAST_SECOND: i64 = 253402300799;

/// The first second that a time can name.
pub const FIRST_SECOND: i64 = -377705116800;

/// Whether the file that binds a token is older than what is known about it, where
/// that was found out at `cached` nanoseconds.
pub open spec fn is_older(conf: ConfTime, cached: Option<int>) -> bool {
    match cached {
        None => false,
        Some(nanos) => match conf {
            ConfTime::Unknown => true,
            ConfTime::BeforeEpoch => false,
            ConfTime::At(seconds) => if seconds < FIRST_SECOND || seconds > LAST_SECOND {
                true
            } else {
                seconds * 1000000000 <= nanos
            },
        },
    }
}

/// Whether the file that binds a token is older than what is known about it.
pub fn is_older_than(conf: ConfTime, cached: Option<i128>) -> (out: bool)
    ensures
        out == is_older(
            conf,
            match cached {
                Some(nanos) => Some(nanos as int),
                None => None,
            },
        ),
{
    match cached {
        None => false,
        Some(nanos) => match conf {
            ConfTime::Unknown => true,
            ConfTime::BeforeEpoch => false,
            ConfTime::At(seconds) => if seconds < FIRST_SECOND || seconds > LAST_SECOND {
                true
            } else {
                seconds as i128 * 1000000000 <= nanos
            },
        },
    }
}

/// Whether the file that binds a token is older than what is known about it.
pub fn is_conf_older_than_cache(conf: ConfTime, cached_at: &str) -> (out: bool)
    ensures
        out == is_older(conf, crate::dates::rfc3339_parsed(cached_at@)),
{
    is_older_than(conf, parse_rfc3339(cached_at))
}

/// Whether what is known is about this token at this address.
pub open spec fn is_about(metadata: SlotAuthMetadata, pat: Seq<char>, url: Seq<char>) -> bool {
    metadata.authapi_base_url@ == url && metadata.pat_fingerprint@ == fingerprint_text(
        crate::hashes::sha256_of(encode_utf8(pat)),
    )
}

/// Whether what is known is about this token at this address.
pub fn metadata_matches_token_and_endpoint(
    metadata: &SlotAuthMetadata,
    pat: &str,
    authapi_base_url: &str,
) -> (out: bool)
    ensures
        out == is_about(*metadata, pat@, authapi_base_url@),
{
    same(metadata.authapi_base_url.as_str(), authapi_base_url) && same(
        metadata.pat_fingerprint.as_str(),
        pat_fingerprint(pat).as_str(),
    )
}

/// Whether what is known can be used without asking again.
pub fn cache_is_fresh(
    metadata: &SlotAuthMetadata,
    pat: &str,
    authapi_base_url: &str,
    conf: ConfTime,
) -> (out: bool)
    ensures
        out == (is_about(*metadata, pat@, authapi_base_url@) && is_older(
            conf,
            crate::dates::rfc3339_parsed(metadata.cached_at@),
        )),
{
    metadata_matches_token_and_endpoint(metadata, pat, authapi_base_url)
        && is_conf_older_than_cache(conf, metadata.cached_at.as_str())
}

/// `s` without slashes at its end.
pub open spec fn without_slashes(s: Seq<char>) -> Seq<char>
    decreases s.len(),
{
    if s.len() > 0 && s.last() == '/' {
        without_slashes(s.drop_last())
    } else {
        s
    }
}

fn drop_slashes(s: &Vec<char>) -> (out: Vec<char>)
    ensures
        out@ == without_slashes(s@),
{
    let mut n: usize = s.len();
    proof {
        assert(s@.take(s@.len() as int) =~= s@);
    }
    while n > 0 && s[n - 1] == '/'
        invariant
            n <= s.len(),
            without_slashes(s@) == without_slashes(s@.take(n as int)),
        decreases n,
    {
        proof {
            assert(s@.take(n as int).drop_last() =~= s@.take(n - 1));
        }
        n -= 1;
    }
    let out = sub_chars(s, 0, n);
    proof {
        assert(out@ =~= s@.take(n as int));
    }
    out
}

/// The address that tokens are asked about at.
pub open spec fn base_url(envs: Map<Seq<char>, Seq<char>>) -> Seq<char> {
    let usual = "https://auth.openai.com/api/accounts"@;
    if envs.dom().contains("CODEX_AUTHAPI_BASE_URL"@) {
        let asked = without_slashes(crate::lines::trimmed(envs["CODEX_AUTHAPI_BASE_URL"@]));
        if asked.len() > 0 {
            asked
        } else {
            usual
        }
    } else {
        usual
    }
}

/// The address that tokens are asked about at.
pub fn resolve_authapi_base_url(envs: &EnvMap) -> (out: String)
    ensures
        out@ == base_url(crate::envfile::env_of(*envs)),
{
    proof {
        assert(crate::envfile::env_of(*envs).dom() =~= envs@.dom());
    }
    if let Some(value) = envs.get("CODEX_AUTHAPI_BASE_URL") {
        let asked = drop_slashes(&trim(&chars_of(value.as_str())));
        if asked.len() > 0 {
            return string_of(&asked);
        }
    }
    String::from_str("https://auth.openai.com/api/accounts")
}

/// The address that says whose token it is.
pub fn whoami_endpoint(authapi_base_url: &str) -> (out: String)
    ensures
        out@ == without_slashes(authapi_base_url@) + "/v1/user-auth-credential/whoami"@,
{
    concat2(
        string_of(&drop_slashes(&chars_of(authapi_base_url))).as_str(),
        "/v1/user-auth-credential/whoami",
    )
}

/// What a status of the answer means: nothing if it is a success.
pub fn whoami_refusal(status: u16, status_text: &str) -> (out: Option<HydrateError>)
    ensures
        out is None == (status != 401 && status != 403 && 200 <= status <= 299),
        out matches Some(HydrateError::Revoked(message)) ==> (status == 401 || status == 403)
            && message@ == "personal access token rejected (HTTP "@ + status_text@ + ")"@,
        out matches Some(HydrateError::Transient(message)) ==> status != 401 && status != 403
            && message@ == "whoami returned HTTP "@ + status_text@,
{
    if status == 401 || status == 403 {
        Some(
            HydrateError::Revoked(
                concat3("personal access token rejected (HTTP ", status_text, ")"),
            ),
        )
    } else if status < 200 || status > 299 {
        Some(HydrateError::Transient(concat2("whoami returned HTTP ", status_text)))
    } else {
        None
    }
}

/// What is used of a token after it was asked about: the answer, or after a failure
/// that may pass what was known before about the same token.
#[derive(Debug)]
pub enum Hydrated {
    /// New, and to be written down.
    New(SlotAuthMetadata),
    /// Known before.
    Known(SlotAuthMetadata),
    Failed(String),
}

/// What is used of a token after it was asked about.
pub fn settle_hydration(
    answer: Result<SlotAuthMetadata, HydrateError>,
    known: Option<SlotAuthMetadata>,
    pat: &str,
    authapi_base_url: &str,
) -> (out: Hydrated)
    ensures
        match answer {
            Ok(metadata) => out == Hydrated::New(metadata),
            Err(HydrateError::Revoked(message)) => out == Hydrated::Failed(message),
            Err(HydrateError::Transient(message)) => match known {
                Some(metadata) => out == (if is_about(metadata, pat@, authapi_base_url@) {
                    Hydrated::Known(metadata)
                } else {
                    Hydrated::Failed(message)
                }),
                None => out == Hydrated::Failed(message),
            },
        },
{
    match answer {
        Ok(metadata) => Hydrated::New(metadata),
        Err(HydrateError::Revoked(message)) => Hydrated::Failed(message),
        Err(HydrateError::Transient(message)) => match known {
            Some(metadata) => if metadata_matches_token_and_endpoint(
                &metadata,
                pat,
                authapi_base_url,
            ) {
                Hydrated::Known(metadata)
            } else {
                Hydrated::Failed(message)
            },
            None => Hydrated::Failed(message),
        },
    }
}

// ---------------------------------------------------------------------------
// The commands
// ---------------------------------------------------------------------------

/// What a command says about a token.
pub open spec fn metadata_lines(metadata: SlotAuthMetadata) -> Seq<Seq<char>> {
    seq![
        "  email: "@ + (match metadata.email {
            Some(email) => email@,
            None => "(none)"@,
        }),
        "  account_id: "@ + metadata.account_id@,
        "  fedramp: "@ + (if metadata.fedramp {
            "true"@
        } else {
            "false"@
        }),
    ]
}

/// What a command says about a token.
pub fn describe_metadata(metadata: &SlotAuthMetadata) -> (out: Vec<String>)
    ensures
        crate::text::texts(out@) == metadata_lines(*metadata),
{
    let mut out: Vec<String> = Vec::new();
    let email = match &metadata.email {
        Some(email) => email.as_str(),
        None => "(none)",
    };
    out.push(concat2("  email: ", email));
    out.push(concat2("  account_id: ", metadata.account_id.as_str()));
    out.push(
        concat2(
            "  fedramp: ",
            if metadata.fedramp {
                "true"
            } else {
                "false"
            },
        ),
    );
    proof {
        assert(crate::text::texts(out@) =~= metadata_lines(*metadata));
    }
    out
}

/// Whether a token can be bound to a slot at all.
pub fn check_pat_add(paths: &ManagerPaths, args: &PatAddArgs, slot_dir_exists: bool) -> (out: Result<
    (),
    String,
>)
    ensures
        out is Ok == (crate::slot::is_slot_name(args.slot@) && (args.slot@ == "default"@
            || slot_dir_exists)),
        out matches Err(message) ==> message@ == (if !crate::slot::is_slot_name(args.slot@) {
            crate::slot::bad_name(args.slot@)
        } else {
            "slot directory does not exist: "@ + paths.slot_dir_text(args.slot@)
        }),
{
    if let Err(message) = validate_slot_name(args.slot.as_str()) {
        return Err(message);
    }
    if !same(args.slot.as_str(), "default") && !slot_dir_exists {
        return Err(
            concat2(
                "slot directory does not exist: ",
                paths.slot_dir(args.slot.as_str()).as_str(),
            ),
        );
    }
    Ok(())
}

/// The token to bind, given what the keychain answered.
pub fn check_added_token(args: &PatAddArgs, fetched: Result<Option<String>, String>) -> (out: Result<
    String,
    String,
>)
    ensures
        crate::envfile::result_text(out) == (match fetched_model(fetched) {
            Err(message) => Err(message),
            Ok(None) => Err(
                "Keychain entry "@ + args.service@ + " not found; run `keychain-secret set "@
                    + args.service@ + " "@ + args.account@ + "` first"@,
            ),
            Ok(Some(token)) => checked_token(args.service@, args.account@, Ok(Some(token))),
        }),
{
    let service = args.service.as_str();
    let account = args.account.as_str();
    match fetched {
        Err(message) => Err(message),
        Ok(None) => {
            let head = concat4(
                "Keychain entry ",
                service,
                " not found; run `keychain-secret set ",
                service,
            );
            Err(concat4(head.as_str(), " ", account, "` first"))
        },
        Ok(Some(token)) => if is_pat(token.as_str()) {
            Ok(token)
        } else {
            let entry = concat4("Keychain entry ", service, "/", account);
            Err(concat2(entry.as_str(), " does not contain a PAT (expected `at-` prefix)"))
        },
    }
}

/// What is said once a token is bound.
pub fn pat_add_report(args: &PatAddArgs, metadata: &SlotAuthMetadata) -> (out: Vec<String>)
    ensures
        crate::text::texts(out@) == seq![
            "pat bound: slot "@ + args.slot@ + " -> "@ + args.service@ + "/"@ + args.account@,
            "  priority: usable auth.json first, PAT fallback second"@,
        ] + metadata_lines(*metadata),
{
    let mut out: Vec<String> = Vec::new();
    let head = concat4("pat bound: slot ", args.slot.as_str(), " -> ", args.service.as_str());
    out.push(concat3(head.as_str(), "/", args.account.as_str()));
    out.push(String::from_str("  priority: usable auth.json first, PAT fallback second"));
    proof {
        assert(crate::text::texts(out@) =~= seq![
            "pat bound: slot "@ + args.slot@ + " -> "@ + args.service@ + "/"@ + args.account@,
            "  priority: usable auth.json first, PAT fallback second"@,
        ]);
    }
    crate::text::extend(&mut out, describe_metadata(metadata));
    out
}

/// What is said once a token is unbound.
pub fn pat_remove_report(slot: &str, conf: &Option<KeychainConf>) -> (out: Vec<String>)
    ensures
        crate::text::texts(out@) == (match conf {
            None => seq!["removed keychain.conf and keychain-meta.json from slot "@ + slot@],
            Some(c) => seq![
                "removed keychain.conf and keychain-meta.json from slot "@ + slot@,
                "Keychain entry not removed; run `keychain-secret delete "@ + c.service@ + " "@
                    + c.account@ + "` to remove it from Keychain"@,
            ],
        }),
{
    let mut out: Vec<String> = Vec::new();
    out.push(concat2("removed keychain.conf and keychain-meta.json from slot ", slot));
    if let Some(c) = conf {
        let head = concat4(
            "Keychain entry not removed; run `keychain-secret delete ",
            c.service.as_str(),
            " ",
            c.account.as_str(),
        );
        out.push(concat2(head.as_str(), "` to remove it from Keychain"));
    }
    proof {
        match conf {
            None => {
                assert(crate::text::texts(out@) =~= seq![
                    "removed keychain.conf and keychain-meta.json from slot "@ + slot@,
                ]);
            },
            Some(c) => {
                assert(crate::text::texts(out@) =~= seq![
                    "removed keychain.conf and keychain-meta.json from slot "@ + slot@,
                    "Keychain entry not removed; run `keychain-secret delete "@ + c.service@ + " "@
                        + c.account@ + "` to remove it from Keychain"@,
                ]);
            },
        }
    }
    out
}

/// The settings of a slot that a command is about, or why it cannot go on.
pub open spec fn bound_settings(slot: Seq<char>, content: Option<Seq<char>>) -> Result<
    (Seq<char>, Seq<char>),
    Seq<char>,
> {
    if !crate::slot::is_slot_name(slot) {
        Err(crate::slot::bad_name(slot))
    } else {
        match conf_of(content) {
            Err(message) => Err(message),
            Ok(None) => Err("no keychain.conf for slot "@ + slot),
            Ok(Some(conf)) => Ok(conf),
        }
    }
}

/// The settings of a slot that a command is about, by the content of their file.
pub fn bound_conf(slot: &str, content: &Option<String>) -> (out: Result<KeychainConf, String>)
    ensures
        match out {
            Ok(conf) => bound_settings(slot@, crate::text::opt_text(*content)) == Ok::<
                (Seq<char>, Seq<char>),
                Seq<char>,
            >(conf_model(conf)),
            Err(message) => bound_settings(slot@, crate::text::opt_text(*content)) == Err::<
                (Seq<char>, Seq<char>),
                Seq<char>,
            >(message@),
        },
{
    if let Err(message) = validate_slot_name(slot) {
        return Err(message);
    }
    match read_keychain_conf(content) {
        Err(message) => Err(message),
        Ok(None) => Err(concat2("no keychain.conf for slot ", slot)),
        Ok(Some(conf)) => Ok(conf),
    }
}

/// The token that is kept, whatever it looks like.
pub fn bound_token(conf: &KeychainConf, fetched: Result<Option<String>, String>) -> (out: Result<
    String,
    String,
>)
    ensures
        crate::envfile::result_text(out) == (match fetched_model(fetched) {
            Err(message) => Err(message),
            Ok(None) => Err(entry_text(conf.service@, conf.account@) + " not found"@),
            Ok(Some(token)) => Ok(token),
        }),
{
    match fetched {
        Err(message) => Err(message),
        Ok(None) => {
            let entry = concat4(
                "Keychain entry ",
                conf.service.as_str(),
                "/",
                conf.account.as_str(),
            );
            Err(concat2(entry.as_str(), " not found"))
        },
        Ok(Some(token)) => Ok(token),
    }
}

/// The token to check, given what the keychain answered.
pub fn check_bound_token(conf: &KeychainConf, fetched: Result<Option<String>, String>) -> (out:
    Result<String, String>)
    ensures
        crate::envfile::result_text(out) == (match fetched_model(fetched) {
            Err(message) => Err(message),
            Ok(None) => Err(entry_text(conf.service@, conf.account@) + " not found"@),
            Ok(Some(token)) => checked_token(conf.service@, conf.account@, Ok(Some(token))),
        }),
{
    match bound_token(conf, fetched) {
        Err(message) => Err(message),
        Ok(token) => check_token(conf, Ok(Some(token))),
    }
}

/// What is said of a token that was checked.
pub fn pat_check_report(slot: &str, metadata: &SlotAuthMetadata) -> (out: Vec<String>)
    ensures
        crate::text::texts(out@) == seq!["slot "@ + slot@ + " PAT: ok"@] + metadata_lines(
            *metadata,
        ),
{
    let mut out: Vec<String> = Vec::new();
    out.push(concat3("slot ", slot, " PAT: ok"));
    proof {
        assert(crate::text::texts(out@) =~= seq!["slot "@ + slot@ + " PAT: ok"@]);
    }
    crate::text::extend(&mut out, describe_metadata(metadata));
    out
}

/// What is said once the owner of a token was asked for again.
pub fn pat_refresh_report(slot: &str, metadata: &SlotAuthMetadata) -> (out: Vec<String>)
    ensures
        crate::text::texts(out@) == seq!["refreshed metadata for slot "@ + slot@]
            + metadata_lines(*metadata).take(2),
{
    let mut out: Vec<String> = Vec::new();
    out.push(concat2("refreshed metadata for slot ", slot));
    let email = match &metadata.email {
        Some(email) => email.as_str(),
        None => "(none)",
    };
    out.push(concat2("  email: ", email));
    out.push(concat2("  account_id: ", metadata.account_id.as_str()));
    proof {
        assert(crate::text::texts(out@) =~= seq!["refreshed metadata for slot "@ + slot@]
            + metadata_lines(*metadata).take(2));
    }
    out
}

// ---------------------------------------------------------------------------
// Laws
// ---------------------------------------------------------------------------

/// Whether `value` is read as it is written where nothing is quoted: on one line,
/// with no white space at its ends, and not between quotes.
pub open spec fn is_plain(value: Seq<char>) -> bool {
    &&& !value.contains('\n')
    &&& value.len() > 0 ==> !crate::lines::is_white(value[0]) && !crate::lines::is_white(
        value.last(),
    )
    &&& !crate::envfile::is_enclosed(value, '"')
    &&& !crate::envfile::is_enclosed(value, '\'')
}

proof fn lemma_setting_reads_back(key: Seq<char>, value: Seq<char>)
    requires
        crate::envfile::is_env_key(key),
        is_plain(value),
    ensures
        crate::envfile::entry_of(key + "="@ + value) == Some((key, value)),
        !(key + "="@ + value).contains('\n'),
        (key + "="@ + value).last() != '\r',
{
    reveal_strlit("=");
    reveal_strlit("export ");
    let line = key + "="@ + value;
    let at = key.len() as int;
    assert(line[at] == '=');
    assert forall|j: int| 0 <= j < at implies line[j] != '=' && line[j] != '\n' && line[j]
        != ' ' by {
        assert(crate::envfile::is_name_char(key[j]));
    }
    if line.contains('\n') {
        let k = choose|k: int| 0 <= k < line.len() && line[k] == '\n';
        assert(k > at);
        assert(value[k - at - 1] == '\n');
    }
    assert(line[0] == key[0]);
    if value.len() > 0 {
        assert(line.last() == value.last());
    } else {
        assert(line.last() == '=');
    }
    crate::lines::lemma_trimmed_fixed(line);
    if crate::text::has_prefix(line, "export "@) {
        assert(line.take(7)[6] == ' ');
        assert(line.take(7)[at] == line[at]);
    }
    crate::text::lemma_find_char_is(line, '=', at);
    assert(line.take(at) =~= key);
    assert(line.skip(at + 1) =~= value);
    assert(crate::envfile::is_name_char(key[key.len() - 1]));
    crate::lines::lemma_trimmed_fixed(key);
    crate::lines::lemma_trimmed_fixed(value);
}

/// Where a token is kept is read back as it was written, as long as the names can be
/// written without quotes.
pub proof fn bindings_read_back(service: Seq<char>, account: Seq<char>)
    requires
        is_plain(service),
        is_plain(account),
    ensures
        conf_of(Some("service="@ + service + "\naccount="@ + account + "\n"@)) == Ok::<
            Option<(Seq<char>, Seq<char>)>,
            Seq<char>,
        >(Some((service, account))),
{
    reveal_strlit("service");
    reveal_strlit("account");
    reveal_strlit("=");
    reveal_strlit("service=");
    reveal_strlit("\naccount=");
    reveal_strlit("\n");
    let first = "service"@ + "="@ + service;
    let second = "account"@ + "="@ + account;
    lemma_setting_reads_back("service"@, service);
    lemma_setting_reads_back("account"@, account);
    let none: Seq<char> = seq![];
    crate::lines::lemma_lines_of_added_line(none, first);
    let head = none + first.push('\n');
    crate::lines::lemma_lines_of_added_line(head, second);
    let text = "service="@ + service + "\naccount="@ + account + "\n"@;
    assert(text =~= head + second.push('\n'));
    assert(crate::lines::lines_of(none) =~= seq![]);
    let lines = crate::lines::lines_of(text);
    assert(lines =~= seq![first, second]);
    assert(lines.drop_last() =~= seq![first]);
    assert(seq![first].drop_last() =~= seq![]);
    let vars = crate::envfile::env_of_lines(lines);
    reveal_with_fuel(crate::envfile::env_of_lines, 3);
    assert("service"@[0] != "account"@[0]);
    assert(vars["service"@] == service);
    assert(vars["account"@] == account);
}

/// A token is used if no other login is set, in the slot's variables or around them, and
/// the entry of the keychain holds one; a token begins with `at-`. It is the only thing
/// that is added.
pub proof fn tokens_are_used_where_no_login_is(
    slot: Seq<char>,
    envs: Map<Seq<char>, Seq<char>>,
    conf: (Seq<char>, Seq<char>),
    parent: Seq<Seq<char>>,
    fetched: Result<Option<Seq<char>>, Seq<char>>,
)
    ensures
        with_token(slot, envs, conf, parent, fetched) is Ok <==> {
            &&& !envs.dom().contains("CODEX_ACCESS_TOKEN"@)
            &&& !envs.dom().contains("CODEX_API_KEY"@)
            &&& !envs.dom().contains("OPENAI_API_KEY"@)
            &&& !parent.contains("CODEX_API_KEY"@)
            &&& !parent.contains("OPENAI_API_KEY"@)
            &&& fetched is Ok && fetched->Ok_0 is Some
            &&& fetched->Ok_0->0.len() >= 3
            &&& fetched->Ok_0->0.take(3) == "at-"@
        },
        with_token(slot, envs, conf, parent, fetched) matches Ok(changed) ==> changed
            == envs.insert("CODEX_ACCESS_TOKEN"@, fetched->Ok_0->0),
{
    reveal_strlit("at-");
    assert("at-"@.len() == 3);
}

/// A slot is bound to what its file names as service and account; without a file it is
/// bound to nothing, and a file without one of them is refused.
pub proof fn bindings_name_service_and_account(text: Seq<char>)
    ensures
        conf_of(None) == Ok::<Option<(Seq<char>, Seq<char>)>, Seq<char>>(None),
        ({
            let vars = crate::envfile::env_of_lines(crate::lines::lines_of(text));
            let both = vars.dom().contains("service"@) && vars.dom().contains("account"@);
            &&& both ==> conf_of(Some(text)) == Ok::<Option<(Seq<char>, Seq<char>)>, Seq<char>>(
                Some((vars["service"@], vars["account"@])),
            )
            &&& !both ==> conf_of(Some(text)) is Err
        }),
{
}

/// What the keychain printed is read without the line ends and spaces behind it, and is
/// otherwise unchanged.
pub proof fn printed_tokens_lose_their_line_end(s: Seq<char>)
    ensures
        ({
            let token = without_line_end(s);
            &&& token.len() <= s.len()
            &&& s.take(token.len() as int) == token
            &&& token.len() > 0 ==> token.last() != '\n' && token.last() != '\r' && token.last()
                != ' '
            &&& forall|i: int|
                token.len() <= i < s.len() ==> #[trigger] s[i] == '\n' || s[i] == '\r' || s[i] == ' '
        }),
    decreases s.len(),
{
    if s.len() > 0 && (s.last() == '\n' || s.last() == '\r' || s.last() == ' ') {
        let rest = s.drop_last();
        printed_tokens_lose_their_line_end(rest);
        let token = without_line_end(s);
        assert(s.take(token.len() as int) =~= rest.take(token.len() as int));
        assert forall|i: int| token.len() <= i < s.len() implies #[trigger] s[i] == '\n' || s[i]
            == '\r' || s[i] == ' ' by {
            if i < rest.len() {
                assert(rest[i] == s[i]);
            }
        }
    } else {
        assert(s.take(s.len() as int) =~= s);
    }
}

/// What is known of a token holds for that token at that address alone.
pub proof fn metadata_is_about_one_token(
    metadata: SlotAuthMetadata,
    pat: Seq<char>,
    url: Seq<char>,
    other_url: Seq<char>,
)
    requires
        is_about(metadata, pat, url),
    ensures
        is_about(metadata, pat, other_url) <==> other_url == url,
        metadata.authapi_base_url@ == url,
        metadata.pat_fingerprint@.len() >= 7 ==> metadata.pat_fingerprint@.take(7) == "sha256:"@,
{
    reveal_strlit("sha256:");
    let digest = crate::hashes::sha256_of(encode_utf8(pat));
    assert("sha256:"@.len() == 7);
    assert(metadata.pat_fingerprint@.take(7) =~= "sha256:"@);
}

/// What is known of a token is used again only if the binding has not changed since: a
/// binding that is written later makes it old.
pub proof fn later_bindings_make_metadata_old(seconds: i64, cached: int)
    requires
        FIRST_SECOND <= seconds <= LAST_SECOND,
    ensures
        is_older(ConfTime::At(seconds), Some(cached)) <==> seconds * 1000000000 <= cached,
        !is_older(ConfTime::At(seconds), None),
{
}

/// The address of the accounts is the one that the variables name, without slashes behind
/// it, and else the usual one.
pub proof fn addresses_come_from_variables(envs: Map<Seq<char>, Seq<char>>)
    ensures
        !envs.dom().contains("CODEX_AUTHAPI_BASE_URL"@) ==> base_url(envs)
            == "https://auth.openai.com/api/accounts"@,
        envs.dom().contains("CODEX_AUTHAPI_BASE_URL"@) ==> {
            let asked = crate::lines::trimmed(envs["CODEX_AUTHAPI_BASE_URL"@]);
            &&& asked.len() > 0 && asked.last() != '/' ==> base_url(envs) == asked
            &&& asked.len() == 0 ==> base_url(envs) == "https://auth.openai.com/api/accounts"@
        },
        base_url(envs).len() > 0,
        base_url(envs).last() != '/',
{
    reveal_strlit("https://auth.openai.com/api/accounts");
    let usual = "https://auth.openai.com/api/accounts"@;
    assert(usual.len() == 36 && usual[35] == 's');
    if envs.dom().contains("CODEX_AUTHAPI_BASE_URL"@) {
        lemma_without_slashes(crate::lines::trimmed(envs["CODEX_AUTHAPI_BASE_URL"@]));
    }
}

proof fn lemma_without_slashes(s: Seq<char>)
    ensures
        without_slashes(s).len() > 0 ==> without_slashes(s).last() != '/',
    decreases s.len(),
{
    if s.len() > 0 && s.last() == '/' {
        lemma_without_slashes(s.drop_last());
    }
}

/// A token is used where the keychain holds one, and only where it is one.
pub proof fn only_tokens_are_used(service: Seq<char>, account: Seq<char>, token: Seq<char>)
    ensures
        is_access_token(token) ==> checked_token(service, account, Ok(Some(token))) == Ok::<
            Seq<char>,
            Seq<char>,
        >(token),
        !is_access_token(token) ==> checked_token(service, account, Ok(Some(token))) == Err::<
            Seq<char>,
            Seq<char>,
        >(
            "Keychain entry "@ + service + "/"@ + account
                + " does not contain a PAT (expected `at-` prefix)"@,
        ),
        checked_token(service, account, Ok(None)) == Err::<Seq<char>, Seq<char>>(
            "Keychain entry "@ + service + "/"@ + account
                + " not found; run `keychain-secret set "@ + service + " "@ + account + "`"@,
        ),
        checked_token(service, account, Err(token)) == Err::<Seq<char>, Seq<char>>(token),
{
}

/// A slot has a binding where its file names one; a name that no slot can have has
/// none.
pub proof fn slots_have_their_binding(
    slot: Seq<char>,
    content: Option<Seq<char>>,
    conf: (Seq<char>, Seq<char>),
)
    ensures
        !crate::slot::is_slot_name(slot) ==> bound_settings(slot, content) is Err,
        crate::slot::is_slot_name(slot) && conf_of(content) == Ok::<
            Option<(Seq<char>, Seq<char>)>,
            Seq<char>,
        >(Some(conf)) ==> bound_settings(slot, content) == Ok::<
            (Seq<char>, Seq<char>),
            Seq<char>,
        >(conf),
        crate::slot::is_slot_name(slot) && conf_of(content) == Ok::<
            Option<(Seq<char>, Seq<char>)>,
            Seq<char>,
        >(None) ==> bound_settings(slot, content) == Err::<(Seq<char>, Seq<char>), Seq<char>>(
            "no keychain.conf for slot "@ + slot,
        ),
{
}

/// Another login stands in the way of a token: one in the variables of the run, or a
/// key in those around it.
pub proof fn other_logins_stand_in_the_way(
    envs: Map<Seq<char>, Seq<char>>,
    parent: Seq<Seq<char>>,
)
    ensures
        envs.dom().contains("CODEX_ACCESS_TOKEN"@) ==> logins_conflict(envs, parent),
        envs.dom().contains("CODEX_API_KEY"@) ==> logins_conflict(envs, parent),
        envs.dom().contains("OPENAI_API_KEY"@) ==> logins_conflict(envs, parent),
        parent.contains("CODEX_API_KEY"@) ==> logins_conflict(envs, parent),
        parent.contains("OPENAI_API_KEY"@) ==> logins_conflict(envs, parent),
        logins_conflict(envs, parent) ==> !(envs.dom() =~= Set::empty() && parent.len() == 0),
        envs.dom() =~= Set::<Seq<char>>::empty() && !parent.contains("CODEX_API_KEY"@)
            && !parent.contains("OPENAI_API_KEY"@) ==> !logins_conflict(envs, parent),
{
}

/// Where the binding is not to be read, another login is in the way or the keychain
/// holds no token, the variables stay as they were.
pub proof fn refused_tokens_change_nothing(
    before: Map<Seq<char>, Seq<char>>,
    after: Map<Seq<char>, Seq<char>>,
    out: Result<(), String>,
    changed: Map<Seq<char>, Seq<char>>,
    reason: Seq<char>,
)
    ensures
        matches_outcome(before, after, out, Err(reason)) ==> after == before && out is Err
            && out->Err_0@ == reason,
        matches_outcome(before, after, out, Ok(changed)) ==> after == changed && out is Ok,
{
}

/// What is known of a token's owner is printed, the address first.
pub proof fn owners_are_printed(metadata: SlotAuthMetadata)
    ensures
        ({
            let lines = metadata_lines(metadata);
            &&& lines.len() == 3
            &&& metadata.email is Some ==> lines[0] == "  email: "@ + metadata.email->0@
            &&& metadata.email is None ==> lines[0] == "  email: "@ + "(none)"@
            &&& lines[1] == "  account_id: "@ + metadata.account_id@
            &&& metadata.fedramp ==> lines[2] == "  fedramp: "@ + "true"@
            &&& !metadata.fedramp ==> lines[2] == "  fedramp: "@ + "false"@
        }),
{
}

} // verus!
