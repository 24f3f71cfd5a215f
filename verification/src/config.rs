//! Settings: defaults, where the files are looked for, and the signing key.

use crate::text::{starts_with, trim};
use vstd::prelude::*;
use vstd::string::*;

verus! {

use crate::text::{has_prefix, trimmed};

/// The tip mode where the settings name none: follow the market.
pub fn default_tip_mode() -> (mode: String)
    ensures
        mode@ == "market"@,
{
    "market".to_owned()
}

/// Whether unprofitable transactions are held back where the settings do not
/// say.
pub fn default_profit_guard() -> (guard: bool)
    ensures
        guard,
{
    true
}

/// The seconds between two looks at the challenge where the settings do not
/// say.
pub fn default_watch_interval() -> (secs: u64)
    ensures
        secs == 3,
{
    3
}

/// A URL without its scheme, where that is `https` or `http`.
pub open spec fn without_scheme(u: Seq<char>) -> Seq<char> {
    if has_prefix(u, "https://"@) {
        u.skip("https://"@.len() as int)
    } else if has_prefix(u, "http://"@) {
        u.skip("http://"@.len() as int)
    } else {
        u
    }
}

/// A URL as it is shown: without `https://` or `http://`.
pub fn short_url(u: &str) -> (t: String)
    ensures
        t@ == without_scheme(u@),
{
    let n: usize = u.unicode_len();
    if starts_with(u, "https://") {
        u.substring_char("https://".unicode_len(), n).to_owned()
    } else if starts_with(u, "http://") {
        u.substring_char("http://".unicode_len(), n).to_owned()
    } else {
        u.to_owned()
    }
}

/// Where a file was looked for, and whether it is there. The directory of the
/// executable is not always known.
#[derive(Clone, Copy)]
pub struct SearchedPlaces {
    pub cwd: bool,
    pub cwd_parent: bool,
    pub exe_dir: Option<bool>,
    pub exe_parent: Option<bool>,
}

/// Which path is taken for a file.
#[derive(Clone, Copy)]
pub enum PathChoice {
    AsGiven,
    Cwd,
    CwdParent,
    ExeDir,
    ExeParent,
}

/// The first place where a file is.
pub open spec fn first_place(p: SearchedPlaces) -> Option<PathChoice> {
    if p.cwd {
        Some(PathChoice::Cwd)
    } else if p.cwd_parent {
        Some(PathChoice::CwdParent)
    } else if p.exe_dir == Some(true) {
        Some(PathChoice::ExeDir)
    } else if p.exe_parent == Some(true) {
        Some(PathChoice::ExeParent)
    } else {
        None
    }
}

/// The first place where a file is: the working directory, the one above it,
/// the directory of the executable, the one above that.
pub fn find_place(p: &SearchedPlaces) -> (c: Option<PathChoice>)
    ensures
        c == first_place(*p),
{
    if p.cwd {
        return Some(PathChoice::Cwd);
    }
    if p.cwd_parent {
        return Some(PathChoice::CwdParent);
    }
    if p.exe_dir.unwrap_or(false) {
        return Some(PathChoice::ExeDir);
    }
    if p.exe_parent.unwrap_or(false) {
        return Some(PathChoice::ExeParent);
    }
    None
}

/// The path of the settings: as given, where that is absolute and there; else
/// the first place where they are; else the working directory, so that the
/// error names that.
pub fn resolve_config_path(is_absolute: bool, exists_as_given: bool, p: &SearchedPlaces) -> (c:
    PathChoice)
    ensures
        c == if is_absolute && exists_as_given {
            PathChoice::AsGiven
        } else {
            match first_place(*p) {
                Some(place) => place,
                None => PathChoice::Cwd,
            }
        },
{
    if is_absolute && exists_as_given {
        return PathChoice::AsGiven;
    }
    match find_place(p) {
        Some(place) => place,
        None => PathChoice::Cwd,
    }
}

/// Settings are found wherever they are: if any place has them, the choice is
/// the first place that does.
pub proof fn law_settings_are_found(p: SearchedPlaces)
    ensures
        first_place(p) is None <==> !p.cwd && !p.cwd_parent && p.exe_dir != Some(true)
            && p.exe_parent != Some(true),
        first_place(p) matches Some(c) ==> match c {
            PathChoice::AsGiven => false,
            PathChoice::Cwd => p.cwd,
            PathChoice::CwdParent => p.cwd_parent && !p.cwd,
            PathChoice::ExeDir => p.exe_dir == Some(true) && !p.cwd && !p.cwd_parent,
            PathChoice::ExeParent => p.exe_parent == Some(true) && !p.cwd && !p.cwd_parent
                && p.exe_dir != Some(true),
        },
{
}

/// Where the signing key comes from.
pub enum KeySource {
    /// The settings have it.
    Settings(String),
    /// The environment is to be asked, after a `.env` file was read into it.
    Environment,
}

/// That there is no signing key.
#[derive(Clone, Copy)]
pub struct NoPrivateKey;

impl NoPrivateKey {
    /// The error in words.
    pub fn message(&self) -> (t: String)
        ensures
            t@ == "config.toml 里 private_key 为空, 且 .env 里没有 PRIVATE_KEY"@,
    {
        "config.toml 里 private_key 为空, 且 .env 里没有 PRIVATE_KEY".to_owned()
    }
}

/// Where the signing key comes from: the settings, without the white space
/// around it, unless they have none or nothing but white space.
pub fn key_source(configured: &Option<String>) -> (s: KeySource)
    ensures
        match s {
            KeySource::Settings(key) => configured is Some && key@ == trimmed(configured->0@)
                && key@.len() > 0,
            KeySource::Environment => configured is None || trimmed(configured->0@).len() == 0,
        },
{
    match configured {
        Some(pk) => {
            let key: String = trim(pk.as_str());
            if key.as_str().is_empty() {
                KeySource::Environment
            } else {
                KeySource::Settings(key)
            }
        },
        None => KeySource::Environment,
    }
}

/// The signing key, given what the environment has where it was asked.
pub fn resolve_private_key(source: KeySource, environment: Option<String>) -> (r: Result<
    String,
    NoPrivateKey,
>)
    ensures
        match (source, environment) {
            (KeySource::Settings(key), _) => r == Ok::<String, NoPrivateKey>(key),
            (KeySource::Environment, Some(key)) => r == Ok::<String, NoPrivateKey>(key),
            (KeySource::Environment, None) => r is Err,
        },
{
    match source {
        KeySource::Settings(key) => Ok(key),
        KeySource::Environment => match environment {
            Some(key) => Ok(key),
            None => Err(NoPrivateKey),
        },
    }
}

/// What is logged: the given level for the miner, warnings of its libraries.
pub fn log_filter(level: &str) -> (t: String)
    ensures
        t@ == level@ + ",wgpu_core=warn,wgpu_hal=warn,naga=warn,alloy=warn,hyper=warn"@,
{
    let mut t: String = level.to_owned();
    t.append(",wgpu_core=warn,wgpu_hal=warn,naga=warn,alloy=warn,hyper=warn");
    t
}

/// The bit of a Windows console's mode that makes it read escape sequences.
pub const ENABLE_VIRTUAL_TERMINAL_PROCESSING: u32 = 0x0004;

/// The mode that a Windows console is to be set to: its mode and the bit for
/// escape sequences. Nothing is set where there is no console or its mode is
/// unknown, as on other systems.
pub fn enable_ansi_on_windows(handle_usable: bool, mode: Option<u32>) -> (new_mode: Option<u32>)
    ensures
        new_mode == match mode {
            Some(m) if handle_usable => Some(m | ENABLE_VIRTUAL_TERMINAL_PROCESSING),
            _ => None,
        },
{
    if !handle_usable {
        return None;
    }
    match mode {
        Some(m) => Some(m | ENABLE_VIRTUAL_TERMINAL_PROCESSING),
        None => None,
    }
}

/// A URL is shown as what comes behind its scheme: put back before it, the scheme
/// gives the URL. One without such a scheme is shown as it is.
pub proof fn law_shown_urls(u: Seq<char>, rest: Seq<char>)
    ensures
        without_scheme("https://"@ + rest) == rest,
        without_scheme("http://"@ + rest) == rest,
        ({
            ||| u == "https://"@ + without_scheme(u)
            ||| u == "http://"@ + without_scheme(u)
            ||| u == without_scheme(u)
        }),
        (forall|r: Seq<char>| u != "https://"@ + r && u != "http://"@ + r) ==> without_scheme(u) == u,
{
    reveal_strlit("https://");
    reveal_strlit("http://");
    let (s, h) = ("https://"@, "http://"@);
    let (a, b) = (s + rest, h + rest);
    assert(a.take(8) =~= s);
    assert(a.skip(8) =~= rest);
    assert(b.take(7) =~= h);
    assert(b.skip(7) =~= rest);
    if has_prefix(b, s) {
        assert(b.take(8)[4] == b[4]);
    }
    if has_prefix(u, s) {
        assert(u =~= s + u.skip(8));
    } else if has_prefix(u, h) {
        assert(u =~= h + u.skip(7));
    }
}

/// Which settings are taken, and which key: an absolute path that is there wins
/// over all places, and a key in the settings over the environment.
pub proof fn law_settings_and_keys_are_taken_in_order(
    is_absolute: bool,
    exists_as_given: bool,
    p: SearchedPlaces,
    c: PathChoice,
    configured: Option<String>,
    source: KeySource,
    environment: Option<String>,
    key: Result<String, NoPrivateKey>,
)
    requires
        call_ensures(resolve_config_path, (is_absolute, exists_as_given, &p), c),
        call_ensures(key_source, (&configured,), source),
        call_ensures(resolve_private_key, (source, environment), key),
    ensures
        c is AsGiven <==> is_absolute && exists_as_given,
        c is CwdParent ==> p.cwd_parent && !p.cwd,
        c is ExeDir ==> p.exe_dir == Some(true) && !p.cwd && !p.cwd_parent,
        c is ExeParent ==> p.exe_parent == Some(true) && !p.cwd && !p.cwd_parent && p.exe_dir
            != Some(true),
        c is Cwd ==> p.cwd || !p.cwd_parent && p.exe_dir != Some(true) && p.exe_parent
            != Some(true),
        configured is Some && trimmed(configured->0@).len() > 0 ==> key is Ok && key->Ok_0@
            == trimmed(configured->0@),
        configured is None || trimmed(configured->0@).len() == 0 ==> (key is Ok <==> environment
            is Some),
        (configured is None || trimmed(configured->0@).len() == 0) && environment is Some
            ==> key->Ok_0 == environment->0,
{
    law_settings_are_found(p);
}

} // verus!
