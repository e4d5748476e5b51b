use vstd::prelude::*;
use crate::text::{chars_of, is_whitespace, lemma_trimmed_ends_are_not_whitespace, parse_decimal, parse_unsigned, string_from_chars, trim, trim_chars};

verus! {

/// The environment variables that configure the service.
#[derive(Debug, Clone, Copy, PartialEq, Eq, Structural)]
pub enum ConfigKey {
    VersionSlug,
    MaxConnections,
    Port,
    Regions,
    FrontendUrl,
    DatabaseUrl,
}

impl ConfigKey {
    /// The name of the environment variable.
    pub fn name(self) -> (r: &'static str)
        ensures
            r@ == self.spec_name(),
    {
        match self {
            ConfigKey::VersionSlug => "VERSION_SLUG",
            ConfigKey::MaxConnections => "MAX_CONNECTIONS",
            ConfigKey::Port => "PORT",
            ConfigKey::Regions => "REGIONS",
            ConfigKey::FrontendUrl => "FRONTEND_URL",
            ConfigKey::DatabaseUrl => "DATABASE_URL",
        }
    }

    /// The name of the environment variable.
    pub open spec fn spec_name(self) -> Seq<char> {
        match self {
            ConfigKey::VersionSlug => "VERSION_SLUG"@,
            ConfigKey::MaxConnections => "MAX_CONNECTIONS"@,
            ConfigKey::Port => "PORT"@,
            ConfigKey::Regions => "REGIONS"@,
            ConfigKey::FrontendUrl => "FRONTEND_URL"@,
            ConfigKey::DatabaseUrl => "DATABASE_URL"@,
        }
    }
}

/// Why the configuration could not be loaded.
#[derive(Debug, Clone, Copy, PartialEq, Eq, Structural)]
pub enum ConfigError {
    /// A required variable is not set.
    Missing(ConfigKey),
    /// A variable is set but does not parse.
    Invalid(ConfigKey),
    /// A list variable holds no entry.
    EmptyList(ConfigKey),
}

/// The service's configuration.
pub struct Config {
    pub version: String,
    pub max_connections: u32,
    pub port: u16,
    /// Regions the scheduler dispatches checks to. One check job is enqueued
    /// per region for every due URL.
    pub regions: Vec<String>,
    pub frontend_url: String,
}

/// The number that an optional variable gives: its default when unset,
/// `None` when set to something that is not a number no greater than `max`.
pub open spec fn number_or(raw: Option<String>, default: int, max: int) -> Option<int> {
    match raw {
        None => Some(default),
        Some(s) => parse_unsigned(s@, max),
    }
}

/// Reads an optional numeric variable, falling back to `default` when it is
/// unset.
pub fn env_or(key: ConfigKey, raw: Option<String>, default: u32, max: u32) -> (r: Result<u32, ConfigError>)
    requires
        default <= max,
    ensures
        r matches Ok(v) ==> v <= max && number_or(raw, default as int, max as int) == Some(v as int),
        number_or(raw, default as int, max as int) is None ==> r == Err::<u32, ConfigError>(ConfigError::Invalid(key)),
        r is Err ==> r == Err::<u32, ConfigError>(ConfigError::Invalid(key)) && number_or(raw, default as int, max as int) is None,
{
    match raw {
        None => Ok(default),
        Some(s) => {
            let chars = chars_of(s.as_str());
            match parse_decimal(&chars, max) {
                Some(v) => Ok(v),
                None => Err(ConfigError::Invalid(key)),
            }
        },
    }
}

/// Reads a required variable.
pub fn env_required(key: ConfigKey, raw: Option<String>) -> (r: Result<String, ConfigError>)
    ensures
        raw is None ==> r == Err::<String, ConfigError>(ConfigError::Missing(key)),
        raw matches Some(s) ==> r == Ok::<String, ConfigError>(s),
{
    match raw {
        Some(s) => Ok(s),
        None => Err(ConfigError::Missing(key)),
    }
}

/// The comma-separated pieces of `s` seen so far: the finished pieces and the
/// piece still being read (`str::split(',')`).
pub open spec fn comma_split(s: Seq<char>) -> (Seq<Seq<char>>, Seq<char>)
    decreases s.len(),
{
    if s.len() == 0 {
        (Seq::empty(), Seq::empty())
    } else {
        let (done, current) = comma_split(s.drop_last());
        if s.last() == ',' {
            (done.push(current), Seq::empty())
        } else {
            (done, current.push(s.last()))
        }
    }
}

/// The pieces trimmed, without those that are empty once trimmed.
pub open spec fn nonblank_trimmed(pieces: Seq<Seq<char>>) -> Seq<Seq<char>>
    decreases pieces.len(),
{
    if pieces.len() == 0 {
        Seq::empty()
    } else {
        let rest = nonblank_trimmed(pieces.drop_last());
        if trim(pieces.last()).len() > 0 {
            rest.push(trim(pieces.last()))
        } else {
            rest
        }
    }
}

/// The entries of a comma-separated list: each piece trimmed, blank pieces
/// left out.
pub open spec fn list_entries(s: Seq<char>) -> Seq<Seq<char>> {
    nonblank_trimmed(comma_split(s).0.push(comma_split(s).1))
}

/// Whether `v` holds the strings `items`, in order.
pub open spec fn holds_strings(v: Seq<String>, items: Seq<Seq<char>>) -> bool {
    &&& v.len() == items.len()
    &&& forall|k: int| 0 <= k < v.len() ==> #[trigger] v[k]@ == items[k]
}

/// Appends `piece`, trimmed, to `out` unless it is blank.
fn push_entry(out: &mut Vec<String>, piece: &Vec<char>)
    ensures
        trim(piece@).len() > 0 ==> final(out)@.len() == old(out)@.len() + 1 && final(out)@.drop_last() == old(out)@ && final(out)@.last()@ == trim(piece@),
        trim(piece@).len() == 0 ==> final(out)@ == old(out)@,
{
    let t = trim_chars(piece);
    if t.len() > 0 {
        out.push(string_from_chars(&t));
        assert(out@.drop_last() =~= old(out)@);
    }
}

/// Reads a required list variable: comma-separated entries, trimmed, blank
/// entries left out; a list with no entry is refused.
pub fn env_list(key: ConfigKey, raw: Option<String>) -> (r: Result<Vec<String>, ConfigError>)
    ensures
        raw is None ==> r == Err::<Vec<String>, ConfigError>(ConfigError::Missing(key)),
        raw matches Some(s) ==> (list_entries(s@).len() == 0 <==> r == Err::<Vec<String>, ConfigError>(ConfigError::EmptyList(key))),
        raw matches Some(s) ==> (list_entries(s@).len() > 0 <==> (r is Ok && holds_strings(r->Ok_0@, list_entries(s@)))),
{
    let raw = match env_required(key, raw) {
        Ok(s) => s,
        Err(e) => return Err(e),
    };
    let chars = chars_of(raw.as_str());
    let n = chars.len();
    let mut items: Vec<String> = Vec::new();
    let mut current: Vec<char> = Vec::new();
    let mut i: usize = 0;
    assert(chars@.take(0) =~= Seq::<char>::empty());
    while i < n
        invariant
            i <= n == chars@.len(),
            chars@ == raw@,
            current@ == comma_split(chars@.take(i as int)).1,
            holds_strings(items@, nonblank_trimmed(comma_split(chars@.take(i as int)).0)),
        decreases n - i,
    {
        let ghost prefix = chars@.take(i as int);
        assert(chars@.take(i + 1).drop_last() =~= prefix);
        assert(chars@.take(i + 1).last() == chars@[i as int]);
        let c = chars[i];
        if c == ',' {
            let ghost done = comma_split(prefix).0;
            let ghost before = items@;
            push_entry(&mut items, &current);
            assert(done.push(current@).drop_last() =~= done);
            assert(holds_strings(items@, nonblank_trimmed(done.push(current@)))) by {
                if trim(current@).len() > 0 {
                    assert forall|k: int| 0 <= k < items@.len() implies #[trigger] items@[k]@ == nonblank_trimmed(done.push(current@))[k] by {
                        if k < before.len() {
                            assert(items@[k] == items@.drop_last()[k]);
                        }
                    }
                }
            }
            current = Vec::new();
        } else {
            current.push(c);
        }
        i = i + 1;
    }
    assert(chars@.take(n as int) =~= chars@);
    let ghost done = comma_split(chars@).0;
    let ghost before = items@;
    push_entry(&mut items, &current);
    assert(done.push(current@).drop_last() =~= done);
    assert(holds_strings(items@, list_entries(raw@))) by {
        if trim(current@).len() > 0 {
            assert forall|k: int| 0 <= k < items@.len() implies #[trigger] items@[k]@ == list_entries(raw@)[k] by {
                if k < before.len() {
                    assert(items@[k] == items@.drop_last()[k]);
                }
            }
        }
    }
    if items.len() == 0 {
        return Err(ConfigError::EmptyList(key));
    }
    Ok(items)
}

/// Whether `r` is the configuration that the raw values of the variables
/// `VERSION_SLUG`, `MAX_CONNECTIONS`, `PORT`, `REGIONS` and `FRONTEND_URL`
/// give, read in that order: the first variable that is missing or invalid
/// decides the error.
pub open spec fn load_outcome(
    version: Option<String>,
    max_connections: Option<String>,
    port: Option<String>,
    regions: Option<String>,
    frontend_url: Option<String>,
    r: Result<Config, ConfigError>,
) -> bool {
    match version {
        None => r == Err::<Config, ConfigError>(ConfigError::Missing(ConfigKey::VersionSlug)),
        Some(v) => match number_or(max_connections, 1, u32::MAX as int) {
            None => r == Err::<Config, ConfigError>(ConfigError::Invalid(ConfigKey::MaxConnections)),
            Some(mc) => match number_or(port, 8080, u16::MAX as int) {
                None => r == Err::<Config, ConfigError>(ConfigError::Invalid(ConfigKey::Port)),
                Some(p) => match regions {
                    None => r == Err::<Config, ConfigError>(ConfigError::Missing(ConfigKey::Regions)),
                    Some(rg) => if list_entries(rg@).len() == 0 {
                        r == Err::<Config, ConfigError>(ConfigError::EmptyList(ConfigKey::Regions))
                    } else {
                        match frontend_url {
                            None => r == Err::<Config, ConfigError>(ConfigError::Missing(ConfigKey::FrontendUrl)),
                            Some(f) => {
                                &&& r is Ok
                                &&& r->Ok_0.version == v
                                &&& r->Ok_0.max_connections == mc
                                &&& r->Ok_0.port == p
                                &&& holds_strings(r->Ok_0.regions@, list_entries(rg@))
                                &&& r->Ok_0.frontend_url == f
                            },
                        }
                    },
                },
            },
        },
    }
}

impl Config {
    /// Builds the configuration from the raw values of its environment
    /// variables (`None` for a variable that is not set): `VERSION_SLUG`,
    /// `REGIONS` and `FRONTEND_URL` are required, `MAX_CONNECTIONS` defaults
    /// to 1 and `PORT` to 8080.
    pub fn load(
        version: Option<String>,
        max_connections: Option<String>,
        port: Option<String>,
        regions: Option<String>,
        frontend_url: Option<String>,
    ) -> (r: Result<Config, ConfigError>)
        ensures
            load_outcome(version, max_connections, port, regions, frontend_url, r),
    {
        let version = match env_required(ConfigKey::VersionSlug, version) {
            Ok(v) => v,
            Err(e) => return Err(e),
        };
        let max_connections = match env_or(ConfigKey::MaxConnections, max_connections, 1, u32::MAX) {
            Ok(v) => v,
            Err(e) => return Err(e),
        };
        let port = match env_or(ConfigKey::Port, port, 8080, 65535) {
            Ok(v) => v as u16,
            Err(e) => return Err(e),
        };
        let regions = match env_list(ConfigKey::Regions, regions) {
            Ok(v) => v,
            Err(e) => return Err(e),
        };
        let frontend_url = match env_required(ConfigKey::FrontendUrl, frontend_url) {
            Ok(v) => v,
            Err(e) => return Err(e),
        };
        Ok(Config { version, max_connections, port, regions, frontend_url })
    }
}


/// Whether a list entry is clean: not empty, and without leading or
/// trailing whitespace.
pub open spec fn is_clean_entry(e: Seq<char>) -> bool {
    &&& e.len() > 0
    &&& !is_whitespace(e[0])
    &&& !is_whitespace(e.last())
}

proof fn lemma_nonblank_trimmed_clean(pieces: Seq<Seq<char>>)
    ensures
        forall|k: int| 0 <= k < nonblank_trimmed(pieces).len() ==> is_clean_entry(#[trigger] nonblank_trimmed(pieces)[k]),
    decreases pieces.len(),
{
    if pieces.len() > 0 {
        lemma_nonblank_trimmed_clean(pieces.drop_last());
        lemma_trimmed_ends_are_not_whitespace(pieces.last());
        let rest = nonblank_trimmed(pieces.drop_last());
        if trim(pieces.last()).len() > 0 {
            assert forall|k: int| 0 <= k < rest.len() + 1 implies is_clean_entry(#[trigger] rest.push(trim(pieces.last()))[k]) by {
                if k < rest.len() {
                    assert(rest.push(trim(pieces.last()))[k] == rest[k]);
                }
            }
        }
    }
}

/// Every entry that a list variable gives is clean: the list `" a, ,b "`
/// gives `a` and `b`, never a blank or padded entry.
pub proof fn lemma_list_entries_are_clean(s: Seq<char>)
    ensures
        forall|k: int| 0 <= k < list_entries(s).len() ==> is_clean_entry(#[trigger] list_entries(s)[k]),
{
    lemma_nonblank_trimmed_clean(comma_split(s).0.push(comma_split(s).1));
}

} // verus!
