use vstd::prelude::*;

verus! {

/// A glob pattern, compiled when a filter is built.
#[derive(Debug, Clone, PartialEq, Eq)]
pub struct Pattern(pub String);

/// The remote endpoint of a task.
#[derive(Debug, Clone, PartialEq, Eq)]
pub enum RemoteCfg {
    /// An SFTP server: `host[:port]`, user, optional password, optional key
    /// file, and optional list of accepted host-key fingerprints.
    Sftp {
        host: String,
        user: String,
        password: Option<String>,
        key: Option<String>,
        fingerprints: Option<Vec<String>>,
    },
}

/// The immutable description of one synchronisation task.
#[derive(Debug, Clone, PartialEq, Eq)]
pub struct TaskConfig {
    pub id: String,
    pub name: String,
    pub local: String,
    pub remote: String,
    pub inclusions: Vec<Pattern>,
    pub exclusions: Vec<Pattern>,
    pub scan_ms: u64,
    pub size: Option<String>,
    pub retry_max: u32,
    pub retry_backoff_ms: u64,
    pub remote_cfg: RemoteCfg,
}

impl TaskConfig {
    /// Scanner period, in milliseconds, when none is configured.
    pub fn default_scan_ms() -> (r: u64)
        ensures
            r == 300,
    {
        300
    }

    /// Retry bound when none is configured.
    pub fn default_retry_max() -> (r: u32)
        ensures
            r == 3,
    {
        3
    }

    /// Initial retry backoff, in milliseconds, when none is configured.
    pub fn default_retry_backoff_ms() -> (r: u64)
        ensures
            r == 500,
    {
        500
    }
}


/// The parser a task file is read with.
#[derive(Debug, Clone, Copy, PartialEq, Eq)]
pub enum ConfigFormat {
    Json,
    Yaml,
}

/// The last component of a `/`-separated path.
pub open spec fn file_name_of(s: Seq<char>, end: int) -> Seq<char>
    decreases end,
{
    if end <= 0 || end > s.len() {
        s
    } else if s[end - 1] == '/' {
        s.skip(end)
    } else {
        file_name_of(s, end - 1)
    }
}

/// A file name whose extension is `json`: it ends in `.json` after at
/// least one other character.
pub open spec fn is_json_name(name: Seq<char>) -> bool {
    name.len() > 5 && name.skip(name.len() - 5) =~= seq!['.', 'j', 's', 'o', 'n']
}

/// JSON for a file whose extension is `json`, YAML for any other.
pub fn config_format(path: &str) -> (r: ConfigFormat)
    ensures
        r == (if is_json_name(file_name_of(path@, path@.len() as int)) { ConfigFormat::Json } else { ConfigFormat::Yaml }),
{
    let n = path.unicode_len();
    let mut end: usize = n;
    while end > 0 && path.get_char(end - 1) != '/'
        invariant
            end <= n,
            n == path@.len(),
            file_name_of(path@, n as int) == file_name_of(path@, end as int),
        decreases end,
    {
        end = end - 1;
    }
    let name = path.substring_char(end, n);
    proof {
        if end == 0 {
            assert(path@.skip(0) =~= path@);
        }
    }
    assert(name@ =~= file_name_of(path@, n as int));
    let m = name.unicode_len();
    if m > 5 && name.get_char(m - 5) == '.' && name.get_char(m - 4) == 'j' && name.get_char(m - 3) == 's'
        && name.get_char(m - 2) == 'o' && name.get_char(m - 1) == 'n' {
        assert(name@.skip(m - 5) =~= seq!['.', 'j', 's', 'o', 'n']);
        ConfigFormat::Json
    } else {
        proof {
            if m > 5 && name@.skip(m - 5) =~= seq!['.', 'j', 's', 'o', 'n'] {
                assert(name@[m - 5] == name@.skip(m - 5)[0]);
                assert(name@[m - 4] == name@.skip(m - 5)[1]);
                assert(name@[m - 3] == name@.skip(m - 5)[2]);
                assert(name@[m - 2] == name@.skip(m - 5)[3]);
                assert(name@[m - 1] == name@.skip(m - 5)[4]);
            }
        }
        ConfigFormat::Yaml
    }
}

} // verus!
