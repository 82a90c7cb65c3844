use crate::tail::texts;
use crate::toml_depth::{toml_nesting_ok, toml_nesting_within_limit};
use vstd::prelude::*;
use vstd::string::*;

verus! {

#[verifier::external_type_specification]
#[verifier::external_body]
pub struct ExTomlError(toml::de::Error);

/// Whether `toml::from_str` reads `text` as a TOML value.
pub uninterp spec fn toml_parses(text: Seq<char>) -> bool;

/// The string that a TOML text holds under `key` in its table `table`, if it
/// holds a string there.
pub uninterp spec fn toml_string_at(text: Seq<char>, table: Seq<char>, key: Seq<char>) -> Option<
    Seq<char>,
>;

pub open spec fn opt_text(v: Option<String>) -> Option<Seq<char>> {
    match v {
        Some(s) => Some(s@),
        None => None,
    }
}

/// Relies on `toml::from_str`, then `toml::Value::get` for `table` and for `key`
/// and `toml::Value::as_str`: reads the text as a TOML document and looks up the
/// string entry. Whether reading succeeds, and what the entry is, depend on the
/// arguments alone. The reader recurses without a limit of its own, so the text
/// must first pass the nesting scan.
#[verifier::external_body]
fn toml_lookup_string(text: &str, table: &str, key: &str) -> (r: Result<
    Option<String>,
    toml::de::Error,
>)
    requires
        toml_nesting_ok(text.spec_bytes()),
    ensures
        r is Ok == toml_parses(text@),
        r is Ok ==> opt_text(r->Ok_0) == toml_string_at(text@, table@, key@),
{
    let doc: toml::Value = toml::from_str(text)?;
    Ok(doc.get(table).and_then(|t| t.get(key)).and_then(toml::Value::as_str).map(String::from))
}

/// Why a deployment target could not be resolved.
#[derive(Debug, Clone, Copy, PartialEq, Eq)]
pub enum TargetError {
    /// The text is not of the form `arn:aws:lambda:<region>:<account>:function:<name>`.
    MalformedArn,
    /// The configuration file is not valid TOML.
    InvalidConfig,
}

/// The pieces of `s` between the separators, as `str::split` gives them.
pub open spec fn split_on(s: Seq<char>, sep: char) -> Seq<Seq<char>>
    decreases s.len(),
{
    if s.len() == 0 {
        seq![Seq::empty()]
    } else {
        let parts = split_on(s.drop_last(), sep);
        if s.last() == sep {
            parts.push(Seq::empty())
        } else {
            parts.update(parts.len() - 1, parts.last().push(s.last()))
        }
    }
}

/// Region and function name of a function ARN: its fourth and seventh fields,
/// when it has exactly seven.
pub open spec fn arn_target(arn: Seq<char>) -> Option<(Seq<char>, Seq<char>)> {
    let fields = split_on(arn, ':');
    if fields.len() == 7 {
        Some((fields[3], fields[6]))
    } else {
        None
    }
}

pub open spec fn arn_result(arn: Seq<char>) -> Result<(Seq<char>, Seq<char>), TargetError> {
    match arn_target(arn) {
        Some(t) => Ok(t),
        None => Err(TargetError::MalformedArn),
    }
}

/// What a key resolves to, given the entry the configuration holds for it, if any.
pub open spec fn resolved(raw: Seq<char>, entry: Option<Seq<char>>) -> Result<
    (Seq<char>, Seq<char>),
    TargetError,
> {
    match entry {
        Some(arn) => arn_result(arn),
        None => arn_result(raw),
    }
}

pub open spec fn target_view(r: Result<(String, String), TargetError>) -> Result<
    (Seq<char>, Seq<char>),
    TargetError,
> {
    match r {
        Ok((region, name)) => Ok((region@, name@)),
        Err(e) => Err(e),
    }
}

proof fn lemma_split_nonempty(s: Seq<char>, sep: char)
    ensures
        split_on(s, sep).len() >= 1,
    decreases s.len(),
{
    if s.len() > 0 {
        lemma_split_nonempty(s.drop_last(), sep);
    }
}

/// The colon-separated fields of `s`.
pub fn split_fields(s: &str) -> (r: Vec<String>)
    ensures
        texts(r@) == split_on(s@, ':'),
{
    let n = s.unicode_len();
    let mut parts: Vec<String> = Vec::new();
    let mut start: usize = 0;
    let mut i: usize = 0;
    assert(s@.subrange(0, 0) =~= Seq::<char>::empty());
    assert(texts(parts@).push(s@.subrange(0, 0)) =~= split_on(Seq::<char>::empty(), ':'));
    while i < n
        invariant
            n == s@.len(),
            start <= i <= n,
            texts(parts@).push(s@.subrange(start as int, i as int)) == split_on(
                s@.subrange(0, i as int),
                ':',
            ),
        decreases n - i,
    {
        let c = s.get_char(i);
        let ghost before = split_on(s@.subrange(0, i as int), ':');
        proof {
            lemma_split_nonempty(s@.subrange(0, i as int), ':');
        }
        assert(s@.subrange(0, i as int + 1).drop_last() =~= s@.subrange(0, i as int));
        assert(s@.subrange(0, i as int + 1).last() == c);
        if c == ':' {
            let piece = s.substring_char(start, i);
            let ghost prev = texts(parts@);
            parts.push(String::from_str(piece));
            assert(texts(parts@) =~= prev.push(s@.subrange(start as int, i as int)));
            start = i + 1;
            assert(s@.subrange(start as int, i as int + 1) =~= Seq::<char>::empty());
            assert(texts(parts@).push(s@.subrange(start as int, i as int + 1)) =~= before.push(
                Seq::empty(),
            ));
        } else {
            assert(s@.subrange(start as int, i as int + 1) =~= s@.subrange(start as int, i as int).push(c));
            assert(texts(parts@).push(s@.subrange(start as int, i as int + 1)) =~= before.update(
                before.len() - 1,
                before.last().push(c),
            ));
        }
        i += 1;
    }
    let piece = s.substring_char(start, n);
    let ghost prev = texts(parts@);
    parts.push(String::from_str(piece));
    assert(texts(parts@) =~= prev.push(s@.subrange(start as int, n as int)));
    assert(s@.subrange(0, n as int) =~= s@);
    parts
}

/// Region and function name of a function ARN, or `MalformedArn`.
pub fn parse_arn(raw: &str) -> (r: Result<(String, String), TargetError>)
    ensures
        target_view(r) == arn_result(raw@),
{
    let fields = split_fields(raw);
    if fields.len() != 7 {
        return Err(TargetError::MalformedArn);
    }
    let region = fields[3].clone();
    let name = fields[6].clone();
    assert(texts(fields@)[3] == region@ && texts(fields@)[6] == name@);
    Ok((region, name))
}

/// Resolves `raw` given the ARN that the configuration holds under that key, if
/// any: the configured ARN when there is one, else `raw` itself.
pub fn resolve_target(raw: &str, entry: Option<&str>) -> (r: Result<(String, String), TargetError>)
    ensures
        target_view(r) == resolved(
            raw@,
            match entry {
                Some(e) => Some(e@),
                None => None,
            },
        ),
{
    match entry {
        Some(arn) => parse_arn(arn),
        None => parse_arn(raw),
    }
}

/// Resolves a deployment target to its region and function name. `raw` is either a
/// full function ARN or a key of the `[arns]` table of the configuration text
/// `config`, when one is given. A configuration that is not TOML, or nests deeper
/// than the reader is run on, is `InvalidConfig`.
pub fn parse_arn_or_key(raw: &str, config: Option<&str>) -> (r: Result<(String, String), TargetError>)
    ensures
        split_on(raw@, ':').len() == 7 || config is None ==> target_view(r) == arn_result(raw@),
        split_on(raw@, ':').len() != 7 && config is Some && (!toml_nesting_ok(
            config->0.spec_bytes(),
        ) || !toml_parses(config->0@)) ==> r == Err::<
            (String, String),
            TargetError,
        >(TargetError::InvalidConfig),
        split_on(raw@, ':').len() != 7 && config is Some && toml_nesting_ok(
            config->0.spec_bytes(),
        ) && toml_parses(config->0@) ==> target_view(r) == resolved(
            raw@,
            toml_string_at(config->0@, "arns"@, raw@),
        ),
{
    let fields = split_fields(raw);
    if fields.len() != 7 {
        if let Some(text) = config {
            if !toml_nesting_within_limit(text) {
                return Err(TargetError::InvalidConfig);
            }
            match toml_lookup_string(text, "arns", raw) {
                Err(_) => {
                    return Err(TargetError::InvalidConfig);
                },
                Ok(Some(arn)) => {
                    return resolve_target(raw, Some(arn.as_str()));
                },
                Ok(None) => {
                    return resolve_target(raw, None);
                },
            }
        }
    }
    parse_arn(raw)
}

} // verus!
