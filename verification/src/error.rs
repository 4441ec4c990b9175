//! The error taxonomy of the package manager core.

use vstd::prelude::*;
use crate::text::string_from_chars;

verus! {

/// Why an operation on a single package failed.
#[derive(Debug, PartialEq, Eq)]
pub enum Error {
    /// A repository, tag or asset was absent upstream.
    NotFound(String),
    /// The selector found no asset for the host platform.
    NoMatchingAsset { repo: String, tag: String },
    /// A transport-level failure; never retried automatically.
    Network(String),
    /// The request quota of the release host is exhausted.
    RateLimited(String),
    /// The downloaded file is not an archive this library can unpack.
    ArchiveFormat(String),
    /// Extraction produced no candidate binary.
    NoBinaryFound,
    /// Another invocation holds the directory lock; not fatal.
    LockConflict,
    /// A config or lock file could not be parsed.
    Parse(String),
}

/// The message an error prints as.
pub open spec fn message_spec(e: Error) -> Seq<char> {
    match e {
        Error::NotFound(s) => "not found: "@ + s@,
        Error::NoMatchingAsset { repo, tag } => "no matching asset for "@ + repo@ + "@"@ + tag@,
        Error::Network(s) => "network failure: "@ + s@,
        Error::RateLimited(s) => "rate limited: "@ + s@,
        Error::ArchiveFormat(s) => "unsupported or corrupt archive: "@ + s@,
        Error::NoBinaryFound => "no binary found in archive"@,
        Error::LockConflict => "another invocation holds the directory lock"@,
        Error::Parse(s) => "parse failure: "@ + s@,
    }
}

impl Error {
    /// A human-readable message for this error.
    pub fn message(&self) -> (r: String)
        ensures
            r@ == message_spec(*self),
    {
        match self {
            Error::NotFound(s) => {
                let mut m = "not found: ".to_owned();
                m.append(s.as_str());
                m
            },
            Error::NoMatchingAsset { repo, tag } => {
                let mut m = "no matching asset for ".to_owned();
                m.append(repo.as_str());
                m.append("@");
                m.append(tag.as_str());
                m
            },
            Error::Network(s) => {
                let mut m = "network failure: ".to_owned();
                m.append(s.as_str());
                m
            },
            Error::RateLimited(s) => {
                let mut m = "rate limited: ".to_owned();
                m.append(s.as_str());
                m
            },
            Error::ArchiveFormat(s) => {
                let mut m = "unsupported or corrupt archive: ".to_owned();
                m.append(s.as_str());
                m
            },
            Error::NoBinaryFound => "no binary found in archive".to_owned(),
            Error::LockConflict => "another invocation holds the directory lock".to_owned(),
            Error::Parse(s) => {
                let mut m = "parse failure: ".to_owned();
                m.append(s.as_str());
                m
            },
        }
    }
}

/// Whether an error reports something absent upstream.
pub fn not_found_err(e: &Error) -> (r: bool)
    ensures
        r == (e is NotFound),
{
    match e {
        Error::NotFound(_) => true,
        _ => false,
    }
}

/// The separator printed between an error and its cause.
pub open spec fn due_to_sep() -> Seq<char> {
    seq!['\n', ' ', ' ', 'd', 'u', 'e', ' ', 't', 'o', ':', ' ']
}

/// The causes after the head of a chain, each prefixed with the separator.
pub open spec fn chain_rest(msgs: Seq<Seq<char>>) -> Seq<char>
    decreases msgs.len(),
{
    if msgs.len() == 0 {
        Seq::empty()
    } else {
        due_to_sep() + msgs[0] + chain_rest(msgs.drop_first())
    }
}

/// The chain of causes `msgs`, joined for display: each message after the
/// first on its own line, prefixed with "due to:".
pub open spec fn pretty_chain(msgs: Seq<Seq<char>>) -> Seq<char> {
    if msgs.len() == 0 {
        Seq::empty()
    } else {
        msgs[0] + chain_rest(msgs.drop_first())
    }
}

/// Join a chain of cause messages for display.
pub fn prettyify_error(msgs: &Vec<String>) -> (r: String)
    ensures
        r@ == pretty_chain(msgs@.map_values(|s: String| s@)),
{
    let ghost ms = msgs@.map_values(|s: String| s@);
    let mut out = String::new();
    let mut i: usize = 0;
    while i < msgs.len()
        invariant
            i <= msgs@.len(),
            ms == msgs@.map_values(|s: String| s@),
            i == 0 ==> out@ == Seq::<char>::empty(),
            i > 0 ==> out@ + chain_rest(ms.skip(i as int)) == pretty_chain(ms),
        decreases msgs@.len() - i,
    {
        if i > 0 {
            let sep: Vec<char> = vec!['\n', ' ', ' ', 'd', 'u', 'e', ' ', 't', 'o', ':', ' '];
            assert(sep@ =~= due_to_sep());
            let seps = string_from_chars(&sep);
            out.append(seps.as_str());
        }
        out.append(msgs[i].as_str());
        proof {
            assert(ms.skip(i as int)[0] == ms[i as int]);
            assert(ms.skip(i as int).drop_first() =~= ms.skip(i + 1));
            if i == 0 {
                assert(ms.drop_first() =~= ms.skip(1));
            }
        }
        i += 1;
    }
    proof {
        assert(ms.skip(msgs@.len() as int) =~= Seq::<Seq<char>>::empty());
    }
    out
}

} // verus!
