//! Brave release channels and where each keeps its data.
use vstd::prelude::*;

use crate::error::CliError;
use crate::text::{chars_of, concat, owned, str_eq};

verus! {

/// Brave browser release channel.
#[derive(Clone, Copy, Debug, PartialEq, Eq, Structural)]
pub enum Channel {
    /// Brave stable release
    Release,
    /// Brave Beta
    Beta,
    /// Brave Nightly
    Nightly,
    /// Brave Development
    Dev,
}

/// The operating systems whose Brave layout is known.
#[derive(Clone, Copy, Debug, PartialEq, Eq, Structural)]
pub enum Platform {
    MacOs,
    Linux,
    Other,
}

impl Channel {
    /// The channel used when none is given.
    pub fn default_channel() -> (c: Channel)
        ensures
            c == Channel::Release,
    {
        Channel::Release
    }

    pub open spec fn spec_display_name(self) -> Seq<char> {
        match self {
            Channel::Release => "Release"@,
            Channel::Beta => "Beta"@,
            Channel::Nightly => "Nightly"@,
            Channel::Dev => "Development"@,
        }
    }

    /// The name shown in messages (what `Display` prints).
    pub fn display_name(self) -> (r: &'static str)
        ensures
            r@ == self.spec_display_name(),
    {
        match self {
            Channel::Release => "Release",
            Channel::Beta => "Beta",
            Channel::Nightly => "Nightly",
            Channel::Dev => "Development",
        }
    }

    pub open spec fn spec_dir_name(self) -> Seq<char> {
        match self {
            Channel::Release => "Brave-Browser"@,
            Channel::Beta => "Brave-Browser-Beta"@,
            Channel::Nightly => "Brave-Browser-Nightly"@,
            Channel::Dev => "Brave-Browser-Development"@,
        }
    }

    /// Directory name suffix under BraveSoftware/ for each channel.
    pub fn dir_name(self) -> (r: &'static str)
        ensures
            r@ == self.spec_dir_name(),
    {
        match self {
            Channel::Release => "Brave-Browser",
            Channel::Beta => "Brave-Browser-Beta",
            Channel::Nightly => "Brave-Browser-Nightly",
            Channel::Dev => "Brave-Browser-Development",
        }
    }
}

/// Whether `s` starts with `/`.
pub open spec fn is_absolute(s: Seq<char>) -> bool {
    s.len() > 0 && s[0] == '/'
}

/// `PathBuf::join` on Unix: an absolute part replaces the base; otherwise the part follows
/// the base, with a `/` between them unless the base is empty or already ends with one.
pub open spec fn spec_path_join(base: Seq<char>, part: Seq<char>) -> Seq<char> {
    if is_absolute(part) {
        part
    } else if base.len() == 0 || base.last() == '/' {
        base + part
    } else {
        base + seq!['/'] + part
    }
}

/// Join a path component onto a base path.
pub fn path_join(base: &str, part: &str) -> (r: String)
    ensures
        r@ == spec_path_join(base@, part@),
{
    let b = chars_of(base);
    let p = chars_of(part);
    if p.len() > 0 && p[0] == '/' {
        owned(part)
    } else if b.len() == 0 || b[b.len() - 1] == '/' {
        concat(base, part)
    } else {
        let mut r = concat(base, "/");
        crate::text::push_str(&mut r, part);
        proof {
            reveal_strlit("/");
        }
        assert(r@ =~= base@ + seq!['/'] + part@);
        r
    }
}

/// The Brave data directory of a channel under a home directory.
pub open spec fn spec_brave_dir_for_channel(home: Option<Seq<char>>, platform: Platform, channel: Channel) -> Option<
    Seq<char>,
> {
    match home {
        None => None,
        Some(h) => match platform {
            Platform::MacOs => Some(
                spec_path_join(
                    spec_path_join(h, "Library/Application Support/BraveSoftware"@),
                    channel.spec_dir_name(),
                ),
            ),
            Platform::Linux => Some(
                spec_path_join(spec_path_join(h, ".config/BraveSoftware"@), channel.spec_dir_name()),
            ),
            Platform::Other => None,
        },
    }
}

/// Return the Brave Browser data directory for a given channel, given the home directory
/// (`$HOME`, when it is set).
pub fn brave_dir_for_channel(home: Option<&str>, platform: Platform, channel: Channel) -> (r: Result<
    String,
    CliError,
>)
    ensures
        match r {
            Ok(p) => spec_brave_dir_for_channel(
                match home {
                    Some(h) => Some(h@),
                    None => None,
                },
                platform,
                channel,
            ) == Some(p@),
            Err(e) => match home {
                None => e is NoHomeDirectory,
                Some(_) => platform is Other && e is UnsupportedPlatform,
            },
        },
{
    let home = match home {
        Some(h) => h,
        None => return Err(CliError::NoHomeDirectory),
    };
    match platform {
        Platform::MacOs => {
            let base = path_join(home, "Library/Application Support/BraveSoftware");
            Ok(path_join(base.as_str(), channel.dir_name()))
        },
        Platform::Linux => {
            let base = path_join(home, ".config/BraveSoftware");
            Ok(path_join(base.as_str(), channel.dir_name()))
        },
        Platform::Other => Err(CliError::UnsupportedPlatform),
    }
}

/// The Brave data directory to use: the one given with `--brave-dir`, else the channel's.
pub fn resolve_brave_dir(override_dir: Option<&str>, home: Option<&str>, platform: Platform, channel: Channel) -> (r: Result<String, CliError>)
    ensures
        match override_dir {
            Some(d) => r matches Ok(p) && p@ == d@,
            None => match r {
                Ok(p) => spec_brave_dir_for_channel(
                    match home {
                        Some(h) => Some(h@),
                        None => None,
                    },
                    platform,
                    channel,
                ) == Some(p@),
                Err(e) => match home {
                    None => e is NoHomeDirectory,
                    Some(_) => platform is Other && e is UnsupportedPlatform,
                },
            },
        },
{
    match override_dir {
        Some(d) => Ok(owned(d)),
        None => brave_dir_for_channel(home, platform, channel),
    }
}

/// The error for a data directory that does not exist: the given one, or the channel's.
pub fn missing_dir_error(overridden: bool, path: &str, channel: Channel) -> (e: CliError)
    ensures
        overridden ==> (e matches CliError::BraveDirMissing { path: p } && p@ == path@),
        !overridden ==> (e matches CliError::DataDirNotFound { channel: c, path: p } && c == channel
            && p@ == path@),
{
    if overridden {
        CliError::BraveDirMissing { path: owned(path) }
    } else {
        CliError::DataDirNotFound { channel, path: owned(path) }
    }
}

} // verus!

verus! {

proof fn lemma_channel_dir_layout(h: Seq<char>, base: Seq<char>, c: Channel)
    requires
        base == ".config/BraveSoftware"@ || base == "Library/Application Support/BraveSoftware"@,
    ensures
        spec_path_join(h, base).len() > 0,
        spec_path_join(spec_path_join(h, base), c.spec_dir_name()) == spec_path_join(h, base) + seq!['/']
            + c.spec_dir_name(),
{
    reveal_strlit(".config/BraveSoftware");
    reveal_strlit("Library/Application Support/BraveSoftware");
    reveal_strlit("Brave-Browser");
    reveal_strlit("Brave-Browser-Beta");
    reveal_strlit("Brave-Browser-Nightly");
    reveal_strlit("Brave-Browser-Development");
    let b = spec_path_join(h, base);
    assert(!is_absolute(base));
    assert(b.last() == base.last());
    assert(!is_absolute(c.spec_dir_name()));
}

/// Each channel has a data directory of its own: on macOS and on Linux, two different channels
/// never share a directory, whatever the home directory.
pub proof fn lemma_channel_dirs_distinct(h: Seq<char>, platform: Platform, c1: Channel, c2: Channel)
    requires
        !(platform is Other),
        c1 != c2,
    ensures
        spec_brave_dir_for_channel(Some(h), platform, c1) != spec_brave_dir_for_channel(Some(h), platform, c2),
{
    reveal_strlit("Brave-Browser");
    reveal_strlit("Brave-Browser-Beta");
    reveal_strlit("Brave-Browser-Nightly");
    reveal_strlit("Brave-Browser-Development");
    let base = if platform is Linux { ".config/BraveSoftware"@ } else { "Library/Application Support/BraveSoftware"@ };
    lemma_channel_dir_layout(h, base, c1);
    lemma_channel_dir_layout(h, base, c2);
    let b = spec_path_join(h, base);
    let d1 = b + seq!['/'] + c1.spec_dir_name();
    let d2 = b + seq!['/'] + c2.spec_dir_name();
    assert(c1.spec_dir_name().len() != c2.spec_dir_name().len());
    assert(d1.len() != d2.len());
}

/// Linux and macOS keep a channel's data in a directory of the same name: each directory is
/// its platform's `BraveSoftware` directory, a `/`, and then one name, the same on both.
pub proof fn lemma_linux_and_macos_dirs_agree(h: Seq<char>, c: Channel)
    ensures
        ({
            let bl = spec_path_join(h, ".config/BraveSoftware"@);
            let bm = spec_path_join(h, "Library/Application Support/BraveSoftware"@);
            let l = spec_brave_dir_for_channel(Some(h), Platform::Linux, c)->0;
            let m = spec_brave_dir_for_channel(Some(h), Platform::MacOs, c)->0;
            &&& l.subrange(0, bl.len() as int + 1) == bl + seq!['/']
            &&& m.subrange(0, bm.len() as int + 1) == bm + seq!['/']
            &&& l.subrange(bl.len() as int + 1, l.len() as int) == m.subrange(bm.len() as int + 1, m.len() as int)
        }),
{
    lemma_channel_dir_layout(h, ".config/BraveSoftware"@, c);
    lemma_channel_dir_layout(h, "Library/Application Support/BraveSoftware"@, c);
    let bl = spec_path_join(h, ".config/BraveSoftware"@);
    let bm = spec_path_join(h, "Library/Application Support/BraveSoftware"@);
    let l = spec_brave_dir_for_channel(Some(h), Platform::Linux, c)->0;
    let m = spec_brave_dir_for_channel(Some(h), Platform::MacOs, c)->0;
    assert(l.subrange(0, bl.len() as int + 1) =~= bl + seq!['/']);
    assert(m.subrange(0, bm.len() as int + 1) =~= bm + seq!['/']);
    assert(l.subrange(bl.len() as int + 1, l.len() as int) =~= c.spec_dir_name());
    assert(m.subrange(bm.len() as int + 1, m.len() as int) =~= c.spec_dir_name());
}

} // verus!
