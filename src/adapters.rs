//! Choosing the game-server and scoring-server adapters from the configuration.
use crate::address::FaustFetcher;
use crate::faust::FaustSubmitter;
use crate::submitter::DummySubmitter;
use crate::text::str_eq;
use vstd::prelude::*;

verus! {

/// A value of an adapter's configuration table, as far as adapters read it.
pub enum ConfigValue {
    Str(String),
    /// Anything but a string.
    Other,
}

/// Why no adapter could be made.
#[derive(Debug, PartialEq, Eq)]
pub enum ConfigError {
    UnknownFetcher(String),
    UnknownSubmitter(String),
    /// A required field is absent.
    Missing(String),
    /// A field that must be a string is not.
    NotAString(String),
}

/// An error in plain values: its kind and the name it is about.
pub open spec fn error_view(e: ConfigError) -> (int, Seq<char>) {
    match e {
        ConfigError::UnknownFetcher(n) => (0, n@),
        ConfigError::UnknownSubmitter(n) => (1, n@),
        ConfigError::Missing(k) => (2, k@),
        ConfigError::NotAString(k) => (3, k@),
    }
}

/// The value under `key`; a later entry overrides an earlier one.
pub open spec fn lookup(fields: Seq<(String, ConfigValue)>, key: Seq<char>) -> Option<ConfigValue>
    decreases fields.len(),
{
    if fields.len() == 0 {
        None
    } else if fields.last().0@ == key {
        Some(fields.last().1)
    } else {
        lookup(fields.drop_last(), key)
    }
}

/// The string under `key`, or the error for its absence or its type.
pub open spec fn str_field_of(fields: Seq<(String, ConfigValue)>, key: Seq<char>) -> Result<
    Seq<char>,
    (int, Seq<char>),
> {
    match lookup(fields, key) {
        None => Err((2int, key)),
        Some(ConfigValue::Str(s)) => Ok(s@),
        Some(ConfigValue::Other) => Err((3int, key)),
    }
}

/// The string under `key`.
pub fn str_field(fields: &Vec<(String, ConfigValue)>, key: &str) -> (r: Result<String, ConfigError>)
    ensures
        match (r, str_field_of(fields@, key@)) {
            (Ok(s), Ok(t)) => s@ == t,
            (Err(e), Err(f)) => error_view(e) == f,
            _ => false,
        },
{
    let mut found: Option<usize> = None;
    let mut i: usize = 0;
    while i < fields.len()
        invariant
            i <= fields@.len(),
            found matches Some(j) ==> j < i && lookup(fields@.take(i as int), key@) == Some(
                fields@[j as int].1,
            ),
            found is None ==> lookup(fields@.take(i as int), key@) is None,
        decreases fields@.len() - i,
    {
        proof {
            assert(fields@.take(i + 1).drop_last() =~= fields@.take(i as int));
        }
        if str_eq(fields[i].0.as_str(), key) {
            found = Some(i);
        }
        i = i + 1;
    }
    proof {
        assert(fields@.take(fields@.len() as int) =~= fields@);
    }
    match found {
        None => Err(ConfigError::Missing(String::from_str(key))),
        Some(j) => match &fields[j].1 {
            ConfigValue::Str(s) => Ok(s.clone()),
            ConfigValue::Other => Err(ConfigError::NotAString(String::from_str(key))),
        },
    }
}

/// A tick-keyed game server: flag ids by service, team and round, and a plain list of
/// team addresses.
pub struct EnowarsFetcher {
    pub endpoint: String,
    pub ips_endpoint: String,
}

impl EnowarsFetcher {
    pub fn new(endpoint: String, ips_endpoint: String) -> (r: EnowarsFetcher)
        ensures
            r.endpoint == endpoint,
            r.ips_endpoint == ips_endpoint,
    {
        EnowarsFetcher { endpoint, ips_endpoint }
    }
}

/// A stand-in game server that makes up flag ids.
pub struct DummyFetcher {}

/// The game-server adapters.
pub enum Fetchers {
    Enowars(EnowarsFetcher),
    Faust(FaustFetcher),
    Dummy(DummyFetcher),
}

/// A scoring server that takes a JSON list of flags over HTTP with a session cookie.
pub struct DctfSubmitter {
    pub url: String,
    pub cookie: String,
}

impl DctfSubmitter {
    pub fn new(url: String, cookie: String) -> (r: DctfSubmitter)
        ensures
            r.url == url,
            r.cookie == cookie,
    {
        DctfSubmitter { url, cookie }
    }
}

/// The scoring-server adapters.
pub enum Submitters {
    Dummy(DummySubmitter),
    Faust(FaustSubmitter),
    Dctf(DctfSubmitter),
}

/// What choosing a fetcher named `name` must give: the dummy needs nothing, the
/// list-style server its `teams`, `scoreboard` and `format`, the tick-keyed one its
/// `endpoint` and `ips`, each a string and looked for in that order; any other name is
/// unknown.
pub open spec fn fetcher_outcome(
    name: Seq<char>,
    fields: Seq<(String, ConfigValue)>,
    r: Result<Fetchers, ConfigError>,
) -> bool {
    if name == "dummy"@ {
        r matches Ok(Fetchers::Dummy(_))
    } else if name == "faust"@ {
        match (
            str_field_of(fields, "teams"@),
            str_field_of(fields, "scoreboard"@),
            str_field_of(fields, "format"@),
        ) {
            (Err(e), _, _) => r matches Err(x) && error_view(x) == e,
            (Ok(_), Err(e), _) => r matches Err(x) && error_view(x) == e,
            (Ok(_), Ok(_), Err(e)) => r matches Err(x) && error_view(x) == e,
            (Ok(t), Ok(s), Ok(f)) => r matches Ok(Fetchers::Faust(x)) && x.teams@ == t
                && x.scoreboard@ == s && x.format@ == f,
        }
    } else if name == "enowars"@ {
        match (str_field_of(fields, "endpoint"@), str_field_of(fields, "ips"@)) {
            (Err(e), _) => r matches Err(x) && error_view(x) == e,
            (Ok(_), Err(e)) => r matches Err(x) && error_view(x) == e,
            (Ok(a), Ok(b)) => r matches Ok(Fetchers::Enowars(x)) && x.endpoint@ == a
                && x.ips_endpoint@ == b,
        }
    } else {
        r matches Err(x) && error_view(x) == (0int, name)
    }
}

/// What choosing a submitter named `name` must give: the dummy needs nothing, the
/// line-protocol server its `host`, the DCTF one its `url` and `cookie`; any other
/// name is unknown.
pub open spec fn submitter_outcome(
    name: Seq<char>,
    fields: Seq<(String, ConfigValue)>,
    r: Result<Submitters, ConfigError>,
) -> bool {
    if name == "dummy"@ {
        r matches Ok(Submitters::Dummy(_))
    } else if name == "faust"@ {
        match str_field_of(fields, "host"@) {
            Err(e) => r matches Err(x) && error_view(x) == e,
            Ok(h) => r matches Ok(Submitters::Faust(x)) && x.host@ == h && x.header_suffix@.len()
                == 0,
        }
    } else if name == "dctf"@ {
        match (str_field_of(fields, "url"@), str_field_of(fields, "cookie"@)) {
            (Err(e), _) => r matches Err(x) && error_view(x) == e,
            (Ok(_), Err(e)) => r matches Err(x) && error_view(x) == e,
            (Ok(u), Ok(c)) => r matches Ok(Submitters::Dctf(x)) && x.url@ == u && x.cookie@ == c,
        }
    } else {
        r matches Err(x) && error_view(x) == (1int, name)
    }
}

proof fn lemma_names_differ()
    ensures
        "dummy"@ != "faust"@,
        "dummy"@ != "enowars"@,
        "faust"@ != "enowars"@,
        "dummy"@ != "dctf"@,
        "faust"@ != "dctf"@,
{
    reveal_strlit("dummy");
    reveal_strlit("faust");
    reveal_strlit("enowars");
    reveal_strlit("dctf");
    assert("dummy"@[0] != "faust"@[0]);
    assert("dummy"@.len() != "enowars"@.len());
    assert("faust"@.len() != "enowars"@.len());
    assert("dummy"@.len() != "dctf"@.len());
    assert("faust"@.len() != "dctf"@.len());
}

impl Fetchers {
    /// The game-server adapter named `name`, made from its configuration table.
    pub fn from_conf(name: &str, fields: &Vec<(String, ConfigValue)>) -> (r: Result<
        Fetchers,
        ConfigError,
    >)
        ensures
            fetcher_outcome(name@, fields@, r),
    {
        proof {
            lemma_names_differ();
        }
        if str_eq(name, "dummy") {
            Ok(Fetchers::Dummy(DummyFetcher {}))
        } else if str_eq(name, "faust") {
            let teams = match str_field(fields, "teams") {
                Ok(v) => v,
                Err(e) => return Err(e),
            };
            let scoreboard = match str_field(fields, "scoreboard") {
                Ok(v) => v,
                Err(e) => return Err(e),
            };
            let format = match str_field(fields, "format") {
                Ok(v) => v,
                Err(e) => return Err(e),
            };
            Ok(Fetchers::Faust(FaustFetcher::new(teams, scoreboard, format)))
        } else if str_eq(name, "enowars") {
            let endpoint = match str_field(fields, "endpoint") {
                Ok(v) => v,
                Err(e) => return Err(e),
            };
            let ips = match str_field(fields, "ips") {
                Ok(v) => v,
                Err(e) => return Err(e),
            };
            Ok(Fetchers::Enowars(EnowarsFetcher::new(endpoint, ips)))
        } else {
            Err(ConfigError::UnknownFetcher(String::from_str(name)))
        }
    }
}

impl Submitters {
    /// The scoring-server adapter named `name`, made from its configuration table.
    pub fn from_conf(name: &str, fields: &Vec<(String, ConfigValue)>) -> (r: Result<
        Submitters,
        ConfigError,
    >)
        ensures
            submitter_outcome(name@, fields@, r),
    {
        proof {
            lemma_names_differ();
        }
        if str_eq(name, "dummy") {
            Ok(Submitters::Dummy(DummySubmitter {}))
        } else if str_eq(name, "faust") {
            let host = match str_field(fields, "host") {
                Ok(v) => v,
                Err(e) => return Err(e),
            };
            Ok(Submitters::Faust(FaustSubmitter::new(host, String::new())))
        } else if str_eq(name, "dctf") {
            let url = match str_field(fields, "url") {
                Ok(v) => v,
                Err(e) => return Err(e),
            };
            let cookie = match str_field(fields, "cookie") {
                Ok(v) => v,
                Err(e) => return Err(e),
            };
            Ok(Submitters::Dctf(DctfSubmitter::new(url, cookie)))
        } else {
            Err(ConfigError::UnknownSubmitter(String::from_str(name)))
        }
    }
}

} // verus!
