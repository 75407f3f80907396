//! Cloning: repository names from sources, clone depth, protocol and URLs.
use vstd::prelude::*;
use crate::error::HarmoniaError;
use crate::forge::github::{parse_u64_text, spec_parse_u64_text};
use crate::project::version::{ascii_lower, lower_equals, to_ascii_lower};
use crate::project::workspace::Workspace;
use crate::text::{concat2, concat3, ends, from_chars, index_of_char, opt_str_view, opt_string_view, split_once_char,
    split_once_spec, starts, str_eq, lemma_index_of_char_at, str_starts, string_of, strip_end_char, strip_end_str, strip_end_text,
    strip_end_text_str, strip_prefix_str, to_chars};

verus! {

/// The part of `s` after its last `c` (all of `s` when it has none).
pub open spec fn after_last(s: Seq<char>, c: char) -> Seq<char>
    decreases s.len(),
{
    if s.len() == 0 {
        s
    } else if s.last() == c {
        Seq::empty()
    } else {
        after_last(s.drop_last(), c).push(s.last())
    }
}

/// The part of `s` after its last `c`.
pub fn after_last_char(s: &str, c: char) -> (r: String)
    ensures
        r@ == after_last(s@, c),
{
    let cs = to_chars(s);
    let mut i: usize = cs.len();
    proof {
        assert(s@.take(s@.len() as int) =~= s@);
        assert(s@.skip(s@.len() as int) =~= Seq::<char>::empty());
        assert(after_last(s@, c) + Seq::<char>::empty() =~= after_last(s@, c));
    }
    while i > 0 && cs[i - 1] != c
        invariant
            cs@ == s@,
            i <= cs@.len(),
            after_last(s@, c) == after_last(s@.take(i as int), c) + s@.skip(i as int),
        decreases i,
    {
        proof {
            let t = s@.take(i as int);
            assert(t.drop_last() =~= s@.take(i - 1));
            assert(t.last() == cs@[i - 1]);
            assert(after_last(t, c) == after_last(s@.take(i - 1), c).push(cs@[i - 1]));
            assert(s@.skip(i - 1) =~= seq![cs@[i - 1]] + s@.skip(i as int));
            assert(after_last(s@.take(i - 1), c).push(cs@[i - 1]) + s@.skip(i as int) =~= after_last(
                s@.take(i - 1),
                c,
            ) + s@.skip(i - 1));
        }
        i -= 1;
    }
    proof {
        let t = s@.take(i as int);
        if i > 0 {
            assert(t.last() == c);
        }
        assert(after_last(t, c) =~= Seq::<char>::empty());
        assert(Seq::<char>::empty() + s@.skip(i as int) =~= s@.skip(i as int));
        assert(s@.take(s@.len() as int) =~= s@);
    }
    let rest = crate::numbers::slice_from(&cs, i);
    proof {
        assert(rest@ =~= s@.skip(i as int));
    }
    from_chars(&rest)
}

/// The repository name a clone source suggests: the last path or `:`
/// segment, without trailing slashes and `.git`; none when empty.
pub open spec fn spec_derive_repo_name(source: Seq<char>) -> Option<Seq<char>> {
    let trimmed = strip_end_text(strip_end_char(source, '/'), ".git"@);
    let name = after_last(after_last(trimmed, '/'), ':');
    if name.len() == 0 {
        None
    } else {
        Some(name)
    }
}

/// The repository name a clone source suggests.
pub fn derive_repo_name(source: &str) -> (r: Option<String>)
    ensures
        opt_string_view(r) == spec_derive_repo_name(source@),
{
    let a = strip_end_str(source, '/');
    let trimmed = strip_end_text_str(a.as_str(), ".git");
    let seg = after_last_char(trimmed.as_str(), '/');
    let name = after_last_char(seg.as_str(), ':');
    if name.unicode_len() == 0 {
        None
    } else {
        Some(name)
    }
}

/// The clone depth: none when cloning in full (asked for, or depth `full`,
/// or nothing given); the given depth, else the default, as a number.
pub open spec fn spec_parse_depth(depth: Option<Seq<char>>, full: bool, default_depth: Option<Seq<char>>) -> Result<
    Option<u32>,
    Seq<char>,
> {
    if full {
        Ok(None)
    } else {
        let d = match depth {
            Some(v) => Some(v),
            None => default_depth,
        };
        match d {
            None => Ok(None),
            Some(v) => if v == "full"@ {
                Ok(None)
            } else {
                match spec_parse_u64_text(v) {
                    Some(n) => if n <= u32::MAX {
                        Ok(Some(n as u32))
                    } else {
                        Err("depth must be an integer or 'full'"@)
                    },
                    None => Err("depth must be an integer or 'full'"@),
                }
            },
        }
    }
}

/// The clone depth.
pub fn parse_depth(depth: Option<&str>, full: bool, default_depth: Option<&str>) -> (r: Result<Option<u32>, HarmoniaError>)
    ensures
        match spec_parse_depth(opt_str_view(depth), full, opt_str_view(default_depth)) {
            Ok(v) => r == Ok::<Option<u32>, HarmoniaError>(v),
            Err(m) => r matches Err(HarmoniaError::Other(e)) && e@ == m,
        },
{
    if full {
        return Ok(None);
    }
    let d = match depth {
        Some(v) => v,
        None => match default_depth {
            Some(v) => v,
            None => return Ok(None),
        },
    };
    if str_eq(d, "full") {
        return Ok(None);
    }
    match parse_u64_text(d) {
        Some(n) => {
            if n <= 4294967295u64 {
                Ok(Some(n as u32))
            } else {
                Err(HarmoniaError::Other(string_of("depth must be an integer or 'full'")))
            }
        },
        None => Err(HarmoniaError::Other(string_of("depth must be an integer or 'full'"))),
    }
}

/// The clone protocol: the one given, else the configured default, lower
/// case; only `ssh` and `https` are accepted.
pub open spec fn spec_clone_protocol(input: Option<Seq<char>>, configured: Option<Seq<char>>) -> Result<Option<Seq<char>>, Seq<char>> {
    let p = match input {
        Some(v) => Some(v),
        None => configured,
    };
    match p {
        None => Ok(None),
        Some(v) => if ascii_lower(v) == "ssh"@ || ascii_lower(v) == "https"@ {
            Ok(Some(ascii_lower(v)))
        } else {
            Err("unsupported clone protocol '"@ + v + "'; expected 'ssh' or 'https'"@)
        },
    }
}

/// The configured default clone protocol.
pub open spec fn configured_protocol(workspace: Workspace) -> Option<Seq<char>> {
    match workspace.config.defaults {
        Some(d) => opt_string_view(d.clone_protocol),
        None => None,
    }
}

/// The clone protocol to use.
pub fn resolve_clone_protocol(input: Option<&str>, workspace: &Workspace) -> (r: Result<Option<String>, HarmoniaError>)
    ensures
        match spec_clone_protocol(opt_str_view(input), configured_protocol(*workspace)) {
            Ok(v) => r matches Ok(o) && opt_string_view(o) == v,
            Err(m) => r matches Err(HarmoniaError::Other(e)) && e@ == m,
        },
{
    let protocol: &str = match input {
        Some(v) => v,
        None => match &workspace.config.defaults {
            Some(d) => match &d.clone_protocol {
                Some(p) => p.as_str(),
                None => return Ok(None),
            },
            None => return Ok(None),
        },
    };
    let lowered = to_ascii_lower(protocol);
    if lower_equals(&lowered, "ssh") || lower_equals(&lowered, "https") {
        Ok(Some(from_chars(&lowered)))
    } else {
        Err(HarmoniaError::Other(concat3("unsupported clone protocol '", protocol, "'; expected 'ssh' or 'https'")))
    }
}

/// An HTTPS form of a remote URL: HTTP(S) URLs as they are; `git@host:path`
/// and `ssh://git@host/path` as `https://host/path`; none for `file://` and
/// anything else.
pub open spec fn spec_to_https(u: Seq<char>) -> Option<Seq<char>> {
    if starts(u, "http://"@) || starts(u, "https://"@) {
        Some(u)
    } else if starts(u, "file://"@) {
        None
    } else if starts(u, "git@"@) {
        match split_once_spec(u.skip(4), ':') {
            Some((host, path)) => Some("https://"@ + host + "/"@ + path),
            None => None,
        }
    } else if starts(u, "ssh://git@"@) {
        match split_once_spec(u.skip(10), '/') {
            Some((host, path)) => Some("https://"@ + host + "/"@ + path),
            None => None,
        }
    } else {
        None
    }
}

/// An HTTPS form of a remote URL.
pub fn to_https_url(remote_url: &str) -> (r: Option<String>)
    ensures
        opt_string_view(r) == spec_to_https(remote_url@),
{
    if str_starts(remote_url, "http://") || str_starts(remote_url, "https://") {
        return Some(string_of(remote_url));
    }
    if str_starts(remote_url, "file://") {
        return None;
    }
    proof {
        reveal_strlit("git@");
        reveal_strlit("ssh://git@");
    }
    match strip_prefix_str(remote_url, "git@") {
        Some(rest) => {
            return match split_once_char(rest.as_str(), ':') {
                Some((host, path)) => {
                    let head = concat3("https://", host.as_str(), "/");
                    Some(concat2(head.as_str(), path.as_str()))
                },
                None => None,
            };
        },
        None => {},
    }
    match strip_prefix_str(remote_url, "ssh://git@") {
        Some(rest) => {
            match split_once_char(rest.as_str(), '/') {
                Some((host, path)) => {
                    let head = concat3("https://", host.as_str(), "/");
                    Some(concat2(head.as_str(), path.as_str()))
                },
                None => None,
            }
        },
        None => None,
    }
}

/// An SSH form of a remote URL: SSH URLs as they are; `http(s)://host/path`
/// as `git@host:path`; none for `file://` and anything else.
pub open spec fn spec_to_ssh(u: Seq<char>) -> Option<Seq<char>> {
    if starts(u, "git@"@) || starts(u, "ssh://git@"@) {
        Some(u)
    } else if starts(u, "file://"@) {
        None
    } else {
        let stripped = if starts(u, "https://"@) {
            Some(u.skip(8))
        } else if starts(u, "http://"@) {
            Some(u.skip(7))
        } else {
            None
        };
        match stripped {
            Some(s) => match split_once_spec(s, '/') {
                Some((host, path)) => Some("git@"@ + host + ":"@ + path),
                None => None,
            },
            None => None,
        }
    }
}

/// An SSH form of a remote URL.
pub fn to_ssh_url(remote_url: &str) -> (r: Option<String>)
    ensures
        opt_string_view(r) == spec_to_ssh(remote_url@),
{
    if str_starts(remote_url, "git@") || str_starts(remote_url, "ssh://git@") {
        return Some(string_of(remote_url));
    }
    if str_starts(remote_url, "file://") {
        return None;
    }
    proof {
        reveal_strlit("https://");
        reveal_strlit("http://");
    }
    let stripped = match strip_prefix_str(remote_url, "https://") {
        Some(s) => s,
        None => match strip_prefix_str(remote_url, "http://") {
            Some(s) => s,
            None => return None,
        },
    };
    match split_once_char(stripped.as_str(), '/') {
        Some((host, path)) => {
            let head = concat3("git@", host.as_str(), ":");
            Some(concat2(head.as_str(), path.as_str()))
        },
        None => None,
    }
}

/// The URL to clone from for a protocol: converted when possible, else as
/// given.
pub open spec fn spec_clone_url(remote_url: Seq<char>, protocol: Option<Seq<char>>) -> Seq<char> {
    if protocol == Some("https"@) {
        match spec_to_https(remote_url) {
            Some(u) => u,
            None => remote_url,
        }
    } else if protocol == Some("ssh"@) {
        match spec_to_ssh(remote_url) {
            Some(u) => u,
            None => remote_url,
        }
    } else {
        remote_url
    }
}

/// The URL to clone from for a protocol.
pub fn resolve_clone_url(remote_url: &str, protocol: Option<&str>) -> (r: String)
    ensures
        r@ == spec_clone_url(remote_url@, opt_str_view(protocol)),
{
    match protocol {
        Some(p) => {
            if str_eq(p, "https") {
                match to_https_url(remote_url) {
                    Some(u) => u,
                    None => string_of(remote_url),
                }
            } else if str_eq(p, "ssh") {
                match to_ssh_url(remote_url) {
                    Some(u) => u,
                    None => string_of(remote_url),
                }
            } else {
                string_of(remote_url)
            }
        },
        None => string_of(remote_url),
    }
}

/// An SSH remote `git@host:path` turns into `https://host/path` and back,
/// for a host without `:` or `/`.
pub proof fn lemma_clone_url_round_trip(host: Seq<char>, path: Seq<char>)
    requires
        forall|k: int| 0 <= k < host.len() ==> #[trigger] host[k] != ':' && host[k] != '/',
    ensures
        spec_to_https("git@"@ + host + ":"@ + path) == Some("https://"@ + host + "/"@ + path),
        spec_to_ssh("https://"@ + host + "/"@ + path) == Some("git@"@ + host + ":"@ + path),
{
    let ssh = "git@"@ + host + ":"@ + path;
    let https = "https://"@ + host + "/"@ + path;
    reveal_strlit("git@");
    reveal_strlit("https://");
    reveal_strlit("http://");
    reveal_strlit("ssh://git@");
    reveal_strlit("file://");
    reveal_strlit(":");
    reveal_strlit("/");
    let a = ssh.skip(4);
    assert(a =~= host + ":"@ + path);
    lemma_index_of_char_at(a, ':', host.len() as int);
    assert(a.take(host.len() as int) =~= host);
    assert(a.skip(host.len() as int + 1) =~= path);
    assert(ssh.subrange(0, 4) =~= "git@"@);
    assert(ssh[0] == 'g');
    assert(!starts(ssh, "http://"@));
    assert(!starts(ssh, "https://"@));
    assert(!starts(ssh, "file://"@));
    let b = https.skip(8);
    assert(b =~= host + "/"@ + path);
    lemma_index_of_char_at(b, '/', host.len() as int);
    assert(b.take(host.len() as int) =~= host);
    assert(b.skip(host.len() as int + 1) =~= path);
    assert(https.subrange(0, 8) =~= "https://"@);
    assert(https[0] == 'h');
    assert(!starts(https, "git@"@));
    assert(!starts(https, "ssh://git@"@));
    assert(!starts(https, "file://"@));
}

} // verus!
