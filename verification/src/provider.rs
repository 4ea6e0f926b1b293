//! The model provider that a run uses, under the name `cx`, and single settings
//! of configuration files.

use vstd::prelude::*;

use crate::numbers::decimal;
use crate::settings::merge_value;
use crate::settings::parse_toml;
use crate::settings::render_inline;
use crate::settings::Toml;
use crate::settings::TomlModel;
use crate::text::concat2;
use crate::text::concat3;
use crate::text::concat4;
use crate::text::same;

verus! {

/// An empty configuration.
pub open spec fn empty_table() -> TomlModel {
    TomlModel::Table(seq![])
}

/// An empty configuration.
pub fn new_table() -> (out: Toml)
    ensures
        out@ == empty_table(),
{
    let out = Toml::Table(Vec::new());
    proof {
        crate::settings::lemma_container_models(out);
        assert(out@->Table_0 =~= seq![]);
    }
    out
}

/// `base` with each override laid over it, or the position of the first override
/// that cannot be read and why.
pub open spec fn overridden(base: TomlModel, overrides: Seq<Seq<char>>) -> Result<
    TomlModel,
    (nat, Seq<char>),
>
    decreases overrides.len(),
{
    if overrides.len() == 0 {
        Ok(base)
    } else {
        match overridden(base, overrides.drop_last()) {
            Err(failure) => Err(failure),
            Ok(value) => match crate::settings::toml_parsed(overrides.last()) {
                Err(reason) => Err(((overrides.len() - 1) as nat, reason)),
                Ok(source) => Ok(crate::settings::merged(value, source)),
            },
        }
    }
}

proof fn lemma_overridden_fails_early(base: TomlModel, overrides: Seq<Seq<char>>, k: int)
    requires
        0 <= k <= overrides.len(),
        overridden(base, overrides.take(k)) is Err,
    ensures
        overridden(base, overrides) == overridden(base, overrides.take(k)),
    decreases overrides.len(),
{
    if k == overrides.len() {
        assert(overrides.take(k) =~= overrides);
    } else {
        let rest = overrides.drop_last();
        assert(rest.take(k) =~= overrides.take(k));
        lemma_overridden_fails_early(base, rest, k);
    }
}

/// `base` with each override laid over it, or the position of the first override
/// that cannot be read and why.
pub fn apply_overrides(base: Toml, overrides: &Vec<String>) -> (out: Result<
    Toml,
    (usize, String),
>)
    ensures
        match out {
            Ok(value) => overridden(base@, crate::text::texts(overrides@)) == Ok::<
                TomlModel,
                (nat, Seq<char>),
            >(value@),
            Err((at, reason)) => overridden(base@, crate::text::texts(overrides@)) == Err::<
                TomlModel,
                (nat, Seq<char>),
            >((at as nat, reason@)) && at < overrides.len(),
        },
{
    let ghost all = crate::text::texts(overrides@);
    let ghost first = base@;
    let mut value = base;
    let mut i: usize = 0;
    proof {
        assert(all.take(0) =~= seq![]);
    }
    while i < overrides.len()
        invariant
            i <= overrides.len(),
            all == crate::text::texts(overrides@),
            first == base@,
            overridden(first, all.take(i as int)) == Ok::<TomlModel, (nat, Seq<char>)>(value@),
        decreases overrides.len() - i,
    {
        proof {
            assert(all.take(i + 1).drop_last() =~= all.take(i as int));
            assert(all.take(i + 1).last() == overrides@[i as int]@);
        }
        match parse_toml(overrides[i].as_str()) {
            Err(reason) => {
                proof {
                    lemma_overridden_fails_early(first, all, i + 1);
                }
                return Err((i, reason));
            },
            Ok(source) => {
                value = merge_value(&value, &source);
            },
        }
        i += 1;
    }
    proof {
        assert(all.take(all.len() as int) =~= all);
    }
    Ok(value)
}

/// The provider of the OpenAI API, at `base_url` where one is given.
pub open spec fn openai_provider(base_url: Option<Seq<char>>) -> TomlModel {
    let headers = TomlModel::Table(
        seq![
            ("OpenAI-Organization"@, TomlModel::Text("OPENAI_ORGANIZATION"@)),
            ("OpenAI-Project"@, TomlModel::Text("OPENAI_PROJECT"@)),
        ],
    );
    let name = seq![("name"@, TomlModel::Text("OpenAI"@))];
    let address = match base_url {
        Some(url) if url.len() > 0 => name.push(("base_url"@, TomlModel::Text(url))),
        _ => name,
    };
    TomlModel::Table(
        address + seq![
            ("wire_api"@, TomlModel::Text("responses"@)),
            ("env_http_headers"@, headers),
            ("requires_openai_auth"@, TomlModel::Bool(true)),
            ("supports_websockets"@, TomlModel::Bool(true)),
        ],
    )
}

/// The provider of the OpenAI API.
pub fn openai_alias(base_url: &Option<String>) -> (out: Toml)
    ensures
        out@ == openai_provider(crate::text::opt_text(*base_url)),
{
    let mut headers: Vec<(String, Toml)> = Vec::new();
    headers.push(
        (
            String::from_str("OpenAI-Organization"),
            Toml::Text(String::from_str("OPENAI_ORGANIZATION")),
        ),
    );
    headers.push(
        (String::from_str("OpenAI-Project"), Toml::Text(String::from_str("OPENAI_PROJECT"))),
    );
    let header_table = Toml::Table(headers);
    proof {
        crate::settings::lemma_container_models(header_table);
        assert(header_table@->Table_0 =~= seq![
            ("OpenAI-Organization"@, TomlModel::Text("OPENAI_ORGANIZATION"@)),
            ("OpenAI-Project"@, TomlModel::Text("OPENAI_PROJECT"@)),
        ]);
    }
    let mut members: Vec<(String, Toml)> = Vec::new();
    members.push((String::from_str("name"), Toml::Text(String::from_str("OpenAI"))));
    if let Some(url) = base_url {
        if url.as_str().unicode_len() > 0 {
            members.push((String::from_str("base_url"), Toml::Text(url.clone())));
        }
    }
    members.push((String::from_str("wire_api"), Toml::Text(String::from_str("responses"))));
    members.push((String::from_str("env_http_headers"), header_table));
    members.push((String::from_str("requires_openai_auth"), Toml::Bool(true)));
    members.push((String::from_str("supports_websockets"), Toml::Bool(true)));
    let out = Toml::Table(members);
    proof {
        crate::settings::lemma_container_models(out);
        assert(out@->Table_0 =~= openai_provider(crate::text::opt_text(*base_url))->Table_0);
    }
    out
}

/// The name of the provider that a configuration asks for.
pub open spec fn source_provider(config: TomlModel) -> Seq<char> {
    match config.member_text("model_provider"@) {
        Some(name) => name,
        None => "openai"@,
    }
}

/// The provider that a configuration asks for, if it is configured.
pub open spec fn provider_of(config: TomlModel) -> Option<TomlModel> {
    let name = source_provider(config);
    if name == "openai"@ {
        Some(openai_provider(config.member_text("openai_base_url"@)))
    } else {
        match config.member("model_providers"@) {
            Some(providers) => providers.member(name),
            None => None,
        }
    }
}

/// The overrides that make the provider of `config` known as `cx`. A provider with a
/// fraction or a time whose text cannot be read is refused, since it cannot be written;
/// those that were read from text all can.
pub open spec fn alias_overrides(config: TomlModel) -> Result<Seq<Seq<char>>, Seq<char>> {
    match provider_of(config) {
        None => Err(
            "model provider `"@ + source_provider(config) + "` has no configuration to alias"@,
        ),
        Some(provider) => match crate::settings::inline_form(provider) {
            None => Err(
                "model provider `"@ + source_provider(config) + "` cannot be written as TOML"@,
            ),
            Some(text) => Ok(
                seq!["model_provider = \"cx\""@, "model_providers.cx = "@ + text],
            ),
        },
    }
}

/// The outcome of making overrides, over mathematical values.
pub open spec fn lines_result(out: Result<Vec<String>, String>) -> Result<
    Seq<Seq<char>>,
    Seq<char>,
> {
    match out {
        Ok(lines) => Ok(crate::text::texts(lines@)),
        Err(message) => Err(message@),
    }
}

/// The overrides that make the provider of `config` known as `cx`.
pub fn alias_for(config: &Toml) -> (out: Result<Vec<String>, String>)
    ensures
        lines_result(out) == alias_overrides(config@),
{
    let name = match config.get_text("model_provider") {
        Some(name) => name,
        None => String::from_str("openai"),
    };
    let provider: Option<Toml> = if same(name.as_str(), "openai") {
        Some(openai_alias(&config.get_text("openai_base_url")))
    } else {
        match config.get("model_providers") {
            Some(providers) => match providers.get(name.as_str()) {
                Some(found) => Some(found.copy()),
                None => None,
            },
            None => None,
        }
    };
    match provider {
        None => Err(
            concat3("model provider `", name.as_str(), "` has no configuration to alias"),
        ),
        Some(found) => match render_inline(&found) {
            None => Err(
                concat3("model provider `", name.as_str(), "` cannot be written as TOML"),
            ),
            Some(text) => {
                let mut lines: Vec<String> = Vec::new();
                lines.push(String::from_str("model_provider = \"cx\""));
                lines.push(concat2("model_providers.cx = ", text.as_str()));
                proof {
                    assert(crate::text::texts(lines@) =~= seq![
                        "model_provider = \"cx\""@,
                        "model_providers.cx = "@ + text@,
                    ]);
                }
                Ok(lines)
            },
        },
    }
}

/// What a configuration file holds, or why it cannot be read. A file that does not
/// exist holds nothing.
pub open spec fn base_config(content: Option<Seq<char>>, path: Seq<char>) -> Result<
    TomlModel,
    Seq<char>,
> {
    match content {
        None => Ok(empty_table()),
        Some(text) => match crate::settings::toml_parsed(text) {
            Ok(value) => Ok(value),
            Err(reason) => Err("parse Codex config from "@ + path + ": "@ + reason),
        },
    }
}

/// The overrides that make the provider of a run known as `cx`.
pub open spec fn resolved(
    content: Option<Seq<char>>,
    path: Seq<char>,
    overrides: Seq<Seq<char>>,
) -> Result<Seq<Seq<char>>, Seq<char>> {
    match base_config(content, path) {
        Err(message) => Err(message),
        Ok(base) => match overridden(base, overrides) {
            Err((at, reason)) => Err(
                "parse Codex override #"@ + crate::numbers::decimal_of(at + 1) + ": "@ + reason,
            ),
            Ok(config) => alias_overrides(config),
        },
    }
}

/// The overrides that make the provider of a run known as `cx`.
pub fn resolve(content: &Option<String>, path: &str, overrides: &Vec<String>) -> (out: Result<
    Vec<String>,
    String,
>)
    ensures
        lines_result(out) == resolved(
            crate::text::opt_text(*content),
            path@,
            crate::text::texts(overrides@),
        ),
{
    let base = match content {
        None => new_table(),
        Some(text) => match parse_toml(text.as_str()) {
            Ok(value) => value,
            Err(reason) => {
                return Err(concat4("parse Codex config from ", path, ": ", reason.as_str()));
            },
        },
    };
    match apply_overrides(base, overrides) {
        Err((at, reason)) => Err(
            concat4(
                "parse Codex override #",
                decimal(at as u64 + 1).as_str(),
                ": ",
                reason.as_str(),
            ),
        ),
        Ok(config) => alias_for(&config),
    }
}

// ---------------------------------------------------------------------------
// Single settings
// ---------------------------------------------------------------------------

/// The text that the first of `lines` gives to `key`; lines that cannot be read do
/// not count.
pub open spec fn override_text(lines: Seq<Seq<char>>, key: Seq<char>) -> Option<Seq<char>>
    decreases lines.len(),
{
    if lines.len() == 0 {
        None
    } else {
        let here = match crate::settings::toml_parsed(lines[0]) {
            Ok(value) => value.member_text(key),
            Err(_) => None,
        };
        match here {
            Some(text) => Some(text),
            None => override_text(lines.skip(1), key),
        }
    }
}

/// The text that the first of `lines` gives to `key`.
pub fn read_override_string(lines: &Vec<String>, key: &str) -> (out: Option<String>)
    ensures
        crate::text::opt_text(out) == override_text(crate::text::texts(lines@), key@),
{
    let ghost all = crate::text::texts(lines@);
    let mut i: usize = 0;
    proof {
        assert(all.skip(0) =~= all);
    }
    while i < lines.len()
        invariant
            i <= lines.len(),
            all == crate::text::texts(lines@),
            override_text(all, key@) == override_text(all.skip(i as int), key@),
        decreases lines.len() - i,
    {
        proof {
            assert(all.skip(i as int)[0] == lines@[i as int]@);
            assert(all.skip(i as int).skip(1) =~= all.skip(i + 1));
        }
        if let Ok(value) = parse_toml(lines[i].as_str()) {
            if let Some(text) = value.get_text(key) {
                return Some(text);
            }
        }
        i += 1;
    }
    None
}

/// The text that a configuration file gives to `key`, or why it cannot be read.
pub fn read_config_string(content: &Option<String>, path: &str, key: &str) -> (out: Result<
    Option<String>,
    String,
>)
    ensures
        match (content, out) {
            (None, Ok(found)) => found is None,
            (None, Err(_)) => false,
            (Some(text), Ok(found)) => crate::settings::toml_parsed(text@) matches Ok(value)
                && crate::text::opt_text(found) == value.member_text(key@),
            (Some(text), Err(message)) => crate::settings::toml_parsed(text@) matches Err(reason)
                && message@ == "parse "@ + path@ + ": "@ + reason,
        },
{
    match content {
        None => Ok(None),
        Some(text) => match parse_toml(text.as_str()) {
            Ok(value) => Ok(value.get_text(key)),
            Err(reason) => Err(concat4("parse ", path, ": ", reason.as_str())),
        },
    }
}

// ---------------------------------------------------------------------------
// Laws
// ---------------------------------------------------------------------------

/// Overrides are laid over a configuration one after the other, in order.
pub proof fn overrides_are_laid_in_order(base: TomlModel, a: Seq<Seq<char>>, b: Seq<Seq<char>>)
    ensures
        overridden(base, a + b) == (match overridden(base, a) {
            Err(failure) => Err::<TomlModel, (nat, Seq<char>)>(failure),
            Ok(value) => match overridden(value, b) {
                Err((at, reason)) => Err::<TomlModel, (nat, Seq<char>)>((a.len() + at, reason)),
                Ok(all) => Ok::<TomlModel, (nat, Seq<char>)>(all),
            },
        }),
    decreases b.len(),
{
    if b.len() == 0 {
        assert(a + b =~= a);
    } else {
        overrides_are_laid_in_order(base, a, b.drop_last());
        assert((a + b).drop_last() =~= a + b.drop_last());
        assert((a + b).last() == b.last());
    }
}

/// One override is merged into the configuration, none leaves it as it is.
pub proof fn each_override_is_merged(base: TomlModel, line: Seq<char>)
    ensures
        overridden(base, seq![]) == Ok::<TomlModel, (nat, Seq<char>)>(base),
        overridden(base, seq![line]) == (match crate::settings::toml_parsed(line) {
            Ok(source) => Ok::<TomlModel, (nat, Seq<char>)>(
                crate::settings::merged(base, source),
            ),
            Err(reason) => Err::<TomlModel, (nat, Seq<char>)>((0, reason)),
        }),
{
    assert(seq![line].drop_last() =~= seq![]);
    assert(seq![line].last() == line);
}

/// A provider that a configuration names and describes is the one that is known as
/// `cx`; one that it does not describe is refused.
pub proof fn named_providers_are_used(config: TomlModel, name: Seq<char>)
    requires
        config.member_text("model_provider"@) == Some(name),
        name != "openai"@,
    ensures
        match config.member("model_providers"@) {
            Some(providers) => match providers.member(name) {
                Some(provider) => crate::settings::inline_form(provider) matches Some(text)
                    ==> alias_overrides(config) == Ok::<Seq<Seq<char>>, Seq<char>>(
                    seq!["model_provider = \"cx\""@, "model_providers.cx = "@ + text],
                ),
                None => alias_overrides(config) is Err,
            },
            None => alias_overrides(config) is Err,
        },
{
}

/// Without a name, or under the name `openai`, the provider is that of the OpenAI API,
/// at the address that the configuration gives; it needs a login and uses responses.
pub proof fn openai_is_the_default(config: TomlModel, base_url: Option<Seq<char>>)
    ensures
        config.member_text("model_provider"@) is None || config.member_text("model_provider"@)
            == Some("openai"@) ==> provider_of(config) == Some(
            openai_provider(config.member_text("openai_base_url"@)),
        ),
        openai_provider(base_url).member_text("name"@) == Some("OpenAI"@),
        openai_provider(base_url).member_text("wire_api"@) == Some("responses"@),
        openai_provider(base_url).member("requires_openai_auth"@) == Some(TomlModel::Bool(true)),
        openai_provider(base_url).member("supports_websockets"@) == Some(TomlModel::Bool(true)),
        base_url matches Some(url) && url.len() > 0 ==> openai_provider(base_url).member_text(
            "base_url"@,
        ) == base_url,
        base_url is None ==> openai_provider(base_url).member("base_url"@) is None,
{
    reveal_strlit("name");
    reveal_strlit("base_url");
    reveal_strlit("wire_api");
    reveal_strlit("env_http_headers");
    reveal_strlit("requires_openai_auth");
    reveal_strlit("supports_websockets");
    assert("name"@.len() == 4);
    assert("base_url"@.len() == 8 && "base_url"@[0] == 'b');
    assert("wire_api"@.len() == 8 && "wire_api"@[0] == 'w');
    assert("env_http_headers"@.len() == 16);
    assert("requires_openai_auth"@.len() == 20);
    assert("supports_websockets"@.len() == 19);
    let m = openai_provider(base_url)->Table_0;
    reveal_with_fuel(crate::settings::lookup, 7);
    match base_url {
        Some(url) if url.len() > 0 => {
            assert(m.len() == 6);
            assert(m[0].0 == "name"@ && m[1].0 == "base_url"@ && m[2].0 == "wire_api"@);
            assert(m[3].0 == "env_http_headers"@ && m[4].0 == "requires_openai_auth"@);
            assert(m[5].0 == "supports_websockets"@);
        },
        _ => {
            assert(m.len() == 5);
            assert(m[0].0 == "name"@ && m[1].0 == "wire_api"@ && m[2].0 == "env_http_headers"@);
            assert(m[3].0 == "requires_openai_auth"@ && m[4].0 == "supports_websockets"@);
        },
    }
}

/// The provider of a run is that of its configuration with all overrides laid over it.
pub proof fn runs_use_the_overridden_provider(
    content: Option<Seq<char>>,
    path: Seq<char>,
    overrides: Seq<Seq<char>>,
    base: TomlModel,
    config: TomlModel,
)
    requires
        match content {
            Some(text) => crate::settings::toml_parsed(text) == Ok::<TomlModel, Seq<char>>(base),
            None => base == TomlModel::Table(seq![]),
        },
        overridden(base, overrides) == Ok::<TomlModel, (nat, Seq<char>)>(config),
    ensures
        resolved(content, path, overrides) == alias_overrides(config),
{
}

/// The first of lines that gives a text to a setting decides.
pub proof fn first_lines_decide(a: Seq<Seq<char>>, b: Seq<Seq<char>>, line: Seq<char>, key: Seq<char>)
    ensures
        override_text(a + b, key) == (match override_text(a, key) {
            Some(text) => Some(text),
            None => override_text(b, key),
        }),
        override_text(seq![], key) is None,
        override_text(seq![line], key) == (match crate::settings::toml_parsed(line) {
            Ok(value) => value.member_text(key),
            Err(_) => None,
        }),
    decreases a.len(),
{
    assert(seq![line].skip(1) =~= seq![]);
    if a.len() == 0 {
        assert(a + b =~= b);
    } else {
        first_lines_decide(a.skip(1), b, line, key);
        assert((a + b).skip(1) =~= a.skip(1) + b);
        assert((a + b)[0] == a[0]);
    }
}

/// An override that cannot be read is refused by its number, counted from one.
pub proof fn bad_overrides_are_numbered(
    content: Option<Seq<char>>,
    path: Seq<char>,
    overrides: Seq<Seq<char>>,
)
    ensures
        base_config(content, path) matches Err(message) ==> resolved(content, path, overrides)
            == Err::<Seq<Seq<char>>, Seq<char>>(message),
        base_config(content, path) matches Ok(base) ==> (overridden(base, overrides) matches Err(
            (at, reason),
        ) ==> resolved(content, path, overrides) == Err::<Seq<Seq<char>>, Seq<char>>(
            "parse Codex override #"@ + crate::numbers::decimal_of(at + 1) + ": "@ + reason,
        )),
        base_config(content, path) matches Ok(base) ==> (overridden(base, overrides) matches Ok(
            config,
        ) ==> resolved(content, path, overrides) == alias_overrides(config)),
{
}

} // verus!
