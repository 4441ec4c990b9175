//! The lock-file format: a small key-and-value document, written and parsed
//! here, with a proved round trip.

use vstd::prelude::*;
use crate::archive::sub_vec;
use crate::error::Error;
use crate::lockfile::LockedConfig;
use crate::pkg::{LockedPackage, LockedPackageView};
use crate::text::{chars_of, string_from_chars};

verus! {

/// How one character is written inside a quoted value: backslash, quote,
/// newline, carriage return and tab are escaped, everything else stands as
/// itself.
pub open spec fn esc_char(c: char) -> Seq<char> {
    if c == '\\' {
        seq!['\\', '\\']
    } else if c == '"' {
        seq!['\\', '"']
    } else if c == '\n' {
        seq!['\\', 'n']
    } else if c == '\r' {
        seq!['\\', 'r']
    } else if c == '\t' {
        seq!['\\', 't']
    } else {
        seq![c]
    }
}

/// A value, escaped for writing inside quotes.
pub open spec fn escape(s: Seq<char>) -> Seq<char>
    decreases s.len(),
{
    if s.len() == 0 {
        Seq::empty()
    } else {
        esc_char(s[0]) + escape(s.drop_first())
    }
}

/// What reading an escaped value yields; `None` when the escaping is broken.
pub open spec fn unescape(s: Seq<char>) -> Option<Seq<char>>
    decreases s.len(),
{
    if s.len() == 0 {
        Some(Seq::empty())
    } else if s[0] == '\\' {
        if s.len() < 2 {
            None
        } else {
            let c = if s[1] == '\\' {
                Some('\\')
            } else if s[1] == '"' {
                Some('"')
            } else if s[1] == 'n' {
                Some('\n')
            } else if s[1] == 'r' {
                Some('\r')
            } else if s[1] == 't' {
                Some('\t')
            } else {
                None
            };
            match c {
                None => None,
                Some(c) => match unescape(s.subrange(2, s.len() as int)) {
                    None => None,
                    Some(rest) => Some(seq![c] + rest),
                },
            }
        }
    } else if s[0] == '"' || s[0] == '\n' {
        None
    } else {
        match unescape(s.drop_first()) {
            None => None,
            Some(rest) => Some(seq![s[0]] + rest),
        }
    }
}

/// Law, one half of the codec round trip: reading an escaped value gives
/// the value back, for every value.
pub proof fn lemma_unescape_escape(s: Seq<char>)
    ensures
        unescape(escape(s)) == Some(s),
    decreases s.len(),
{
    if s.len() == 0 {
        assert(escape(s) =~= Seq::<char>::empty());
    } else {
        lemma_unescape_escape(s.drop_first());
        let e = escape(s);
        let c = s[0];
        let head = esc_char(c);
        assert(e == head + escape(s.drop_first()));
        if c == '\\' || c == '"' || c == '\n' || c == '\r' || c == '\t' {
            assert(head.len() == 2);
            assert(e[0] == '\\');
            assert(e.len() >= 2);
            assert(e.subrange(2, e.len() as int) =~= escape(s.drop_first()));
            assert(unescape(e) == Some(seq![c] + s.drop_first()));
            assert(seq![c] + s.drop_first() =~= s);
        } else {
            assert(head.len() == 1);
            assert(e[0] == c);
            assert(e.drop_first() =~= escape(s.drop_first()));
            assert(unescape(e) == Some(seq![c] + s.drop_first()));
            assert(seq![c] + s.drop_first() =~= s);
        }
    }
}

/// Escaping a concatenation escapes the parts.
pub proof fn lemma_escape_append(a: Seq<char>, b: Seq<char>)
    ensures
        escape(a + b) == escape(a) + escape(b),
    decreases a.len(),
{
    if a.len() == 0 {
        assert(a + b =~= b);
        assert(escape(a) + escape(b) =~= escape(b));
    } else {
        lemma_escape_append(a.drop_first(), b);
        assert((a + b).drop_first() =~= a.drop_first() + b);
        assert((a + b)[0] == a[0]);
        assert(escape(a + b) =~= esc_char(a[0]) + (escape(a.drop_first()) + escape(b)));
        assert(esc_char(a[0]) + (escape(a.drop_first()) + escape(b)) =~= (esc_char(a[0]) + escape(
            a.drop_first(),
        )) + escape(b));
    }
}

/// Escape a value, executably.
pub fn escape_chars(v: &Vec<char>) -> (r: Vec<char>)
    ensures
        r@ == escape(v@),
{
    let mut r: Vec<char> = Vec::new();
    let mut i: usize = 0;
    while i < v.len()
        invariant
            i <= v@.len(),
            r@ == escape(v@.subrange(0, i as int)),
        decreases v@.len() - i,
    {
        let c = v[i];
        if c == '\\' {
            r.push('\\');
            r.push('\\');
        } else if c == '"' {
            r.push('\\');
            r.push('"');
        } else if c == '\n' {
            r.push('\\');
            r.push('n');
        } else if c == '\r' {
            r.push('\\');
            r.push('r');
        } else if c == '\t' {
            r.push('\\');
            r.push('t');
        } else {
            r.push(c);
        }
        proof {
            lemma_escape_append(v@.subrange(0, i as int), seq![v@[i as int]]);
            assert(v@.subrange(0, i + 1) =~= v@.subrange(0, i as int) + seq![v@[i as int]]);
            assert(seq![v@[i as int]].drop_first() =~= Seq::<char>::empty());
            assert(escape(Seq::<char>::empty()) =~= Seq::<char>::empty());
            assert(seq![v@[i as int]][0] == v@[i as int]);
            assert(escape(seq![v@[i as int]]) == esc_char(v@[i as int]) + escape(
                seq![v@[i as int]].drop_first(),
            ));
            assert(esc_char(v@[i as int]) + Seq::<char>::empty() =~= esc_char(v@[i as int]));
            assert(escape(seq![v@[i as int]]) =~= esc_char(v@[i as int]));
            assert(r@ =~= escape(v@.subrange(0, i as int)) + esc_char(v@[i as int]));
        }
        i += 1;
    }
    proof {
        assert(v@.subrange(0, v@.len() as int) =~= v@);
    }
    r
}

/// Read an escaped value, executably.
pub fn unescape_chars(v: &Vec<char>) -> (r: Option<Vec<char>>)
    ensures
        match r {
            Some(out) => unescape(v@) == Some(out@),
            None => unescape(v@) is None,
        },
{
    let mut out: Vec<char> = Vec::new();
    let mut i: usize = 0;
    let n = v.len();
    proof {
        assert(v@.subrange(0, n as int) =~= v@);
        if unescape(v@) is Some {
            assert(Seq::<char>::empty() + unescape(v@)->0 =~= unescape(v@)->0);
        }
    }
    while i < n
        invariant
            i <= n,
            n == v@.len(),
            match unescape(v@.subrange(i as int, n as int)) {
                Some(rest) => unescape(v@) == Some(out@ + rest),
                None => unescape(v@) is None,
            },
        decreases n - i,
    {
        let ghost tail = v@.subrange(i as int, n as int);
        let c = v[i];
        assert(tail[0] == c);
        if c == '\\' {
            if i + 1 >= n {
                assert(tail.len() < 2);
                return None;
            }
            let d = v[i + 1];
            assert(tail[1] == d);
            let dec: char = if d == '\\' {
                '\\'
            } else if d == '"' {
                '"'
            } else if d == 'n' {
                '\n'
            } else if d == 'r' {
                '\r'
            } else if d == 't' {
                '\t'
            } else {
                proof {
                    assert(unescape(tail) is None);
                }
                return None;
            };
            let ghost out0 = out@;
            out.push(dec);
            proof {
                assert(tail.subrange(2, tail.len() as int) =~= v@.subrange(i + 2, n as int));
                if unescape(v@.subrange(i + 2, n as int)) is Some {
                    let rest2 = unescape(v@.subrange(i + 2, n as int))->0;
                    assert(unescape(tail) == Some(seq![dec] + rest2));
                    assert(out0 + (seq![dec] + rest2) =~= out@ + rest2);
                }
            }
            i += 2;
        } else if c == '"' || c == '\n' {
            proof {
                assert(unescape(tail) is None);
            }
            return None;
        } else {
            let ghost out0 = out@;
            out.push(c);
            proof {
                assert(tail.drop_first() =~= v@.subrange(i + 1, n as int));
                if unescape(v@.subrange(i + 1, n as int)) is Some {
                    let rest2 = unescape(v@.subrange(i + 1, n as int))->0;
                    assert(unescape(tail) == Some(seq![c] + rest2));
                    assert(out0 + (seq![c] + rest2) =~= out@ + rest2);
                }
            }
            i += 1;
        }
    }
    proof {
        assert(v@.subrange(v@.len() as int, v@.len() as int) =~= Seq::<char>::empty());
        assert(out@ + Seq::<char>::empty() =~= out@);
    }
    Some(out)
}

/// A piece of text that stays on one line: it holds no newline.
pub open spec fn line_clean(s: Seq<char>) -> bool
    decreases s.len(),
{
    s.len() == 0 || (s[0] != '\n' && line_clean(s.drop_first()))
}

/// Cleanliness distributes over concatenation.
pub proof fn lemma_clean_append(a: Seq<char>, b: Seq<char>)
    ensures
        line_clean(a + b) == (line_clean(a) && line_clean(b)),
    decreases a.len(),
{
    if a.len() == 0 {
        assert(a + b =~= b);
    } else {
        lemma_clean_append(a.drop_first(), b);
        assert((a + b).drop_first() =~= a.drop_first() + b);
        assert((a + b)[0] == a[0]);
    }
}

/// Escaped values are clean.
pub proof fn lemma_escape_line_clean(s: Seq<char>)
    ensures
        line_clean(escape(s)),
    decreases s.len(),
{
    if s.len() == 0 {
        assert(line_clean(escape(s)));
    } else {
        lemma_escape_line_clean(s.drop_first());
        lemma_clean_append(esc_char(s[0]), escape(s.drop_first()));
        assert(line_clean(esc_char(s[0]))) by {
            let h = esc_char(s[0]);
            let c = s[0];
            assert(line_clean(Seq::<char>::empty()));
            if c == '\\' || c == '"' || c == '\n' || c == '\r' || c == '\t' {
                assert(h.len() == 2 && h[0] == '\\' && h[1] != '\n');
                assert(h.drop_first() =~= seq![h[1]]);
                assert(seq![h[1]].drop_first() =~= Seq::<char>::empty());
                assert(seq![h[1]][0] == h[1]);
                assert(line_clean(seq![h[1]]));
            } else {
                assert(h =~= seq![c]);
                assert(h.drop_first() =~= Seq::<char>::empty());
                assert(h[0] == c && c != '\n');
            }
        }
    }
}

pub open spec fn key_version() -> Seq<char> { seq!['v', 'e', 'r', 's', 'i', 'o', 'n'] }

pub open spec fn key_source() -> Seq<char> { seq!['s', 'o', 'u', 'r', 'c', 'e'] }

pub open spec fn key_repo() -> Seq<char> { seq!['r', 'e', 'p', 'o'] }

pub open spec fn key_desc() -> Seq<char> { seq!['d', 'e', 's', 'c'] }

pub open spec fn key_filename() -> Seq<char> { seq!['f', 'i', 'l', 'e', 'n', 'a', 'm', 'e'] }

pub open spec fn key_url() -> Seq<char> {
    seq!['d', 'o', 'w', 'n', 'l', 'o', 'a', 'd', '_', 'u', 'r', 'l']
}

pub open spec fn github_word() -> Seq<char> { seq!['g', 'i', 't', 'h', 'u', 'b'] }

/// What stands between a key and its opening quote.
pub open spec fn mid_eq() -> Seq<char> { seq![' ', '=', ' ', '"'] }

/// A `key = "value"` line.
pub open spec fn key_line(k: Seq<char>, v: Seq<char>) -> Seq<char> {
    k + mid_eq() + escape(v) + seq!['"']
}

/// A `[name]` line opening a package's block.
pub open spec fn header_line(name: Seq<char>) -> Seq<char> {
    seq!['['] + name + seq![']']
}

/// The lines one locked record is written as: its header, the required
/// version, source and repo lines, the optional desc, the required filename,
/// and the optional download URL, in that order.
pub open spec fn pkg_lines(p: LockedPackageView) -> Seq<Seq<char>> {
    let head = seq![
        header_line(p.name),
        key_line(key_version(), p.version),
        key_line(key_source(), github_word()),
        key_line(key_repo(), p.source.repo),
    ];
    let with_desc = match p.desc {
        Some(d) => head.push(key_line(key_desc(), d)),
        None => head,
    };
    let with_filename = with_desc.push(key_line(key_filename(), p.filename));
    match p.download_url {
        Some(u) => with_filename.push(key_line(key_url(), u)),
        None => with_filename,
    }
}

/// The lines a whole store is written as, package after package.
pub open spec fn doc_lines(ps: Seq<LockedPackageView>) -> Seq<Seq<char>>
    decreases ps.len(),
{
    if ps.len() == 0 {
        Seq::empty()
    } else {
        pkg_lines(ps[0]) + doc_lines(ps.drop_first())
    }
}

/// What reading a header line yields.
pub open spec fn parse_header(line: Seq<char>) -> Option<Seq<char>> {
    if line.len() >= 2 && line[0] == '[' && line[line.len() - 1] == ']' {
        Some(line.subrange(1, line.len() - 1))
    } else {
        None
    }
}

/// What reading a `key = "value"` line yields.
pub open spec fn parse_pair(line: Seq<char>, key: Seq<char>) -> Option<Seq<char>> {
    let pfx = key + mid_eq();
    if line.len() >= pfx.len() + 1 && line.subrange(0, pfx.len() as int) == pfx && line[line.len()
        - 1] == '"' {
        unescape(line.subrange(pfx.len() as int, line.len() - 1))
    } else {
        None
    }
}

/// What reading one package's block from the head of `ls` yields: the record
/// and how many lines it took.
pub open spec fn parse_pkg(ls: Seq<Seq<char>>) -> Option<(LockedPackageView, int)> {
    if ls.len() < 5 {
        None
    } else {
        match (
            parse_header(ls[0]),
            parse_pair(ls[1], key_version()),
            parse_pair(ls[2], key_source()),
            parse_pair(ls[3], key_repo()),
        ) {
            (Some(name), Some(version), Some(src), Some(repo)) => {
                if src != github_word() {
                    None
                } else {
                    let dd = match parse_pair(ls[4], key_desc()) {
                        Some(d) => (Some(d), 5int),
                        None => (None::<Seq<char>>, 4int),
                    };
                    let desc = dd.0;
                    let i = dd.1;
                    if i >= ls.len() {
                        None
                    } else {
                        match parse_pair(ls[i], key_filename()) {
                            None => None,
                            Some(filename) => {
                                let base = LockedPackageView {
                                    name,
                                    version,
                                    source: crate::pkg::SourceView { repo },
                                    desc,
                                    filename,
                                    download_url: None,
                                };
                                if i + 1 < ls.len() {
                                    match parse_pair(ls[i + 1], key_url()) {
                                        Some(u) => Some(
                                            (
                                                LockedPackageView {
                                                    download_url: Some(u),
                                                    ..base
                                                },
                                                i + 2,
                                            ),
                                        ),
                                        None => Some((base, i + 1)),
                                    }
                                } else {
                                    Some((base, i + 1))
                                }
                            },
                        }
                    }
                }
            },
            _ => None,
        }
    }
}

/// What reading a whole document's lines yields.
pub open spec fn parse_doc(ls: Seq<Seq<char>>) -> Option<Seq<LockedPackageView>>
    decreases ls.len(),
{
    if ls.len() == 0 {
        Some(Seq::empty())
    } else {
        match parse_pkg(ls) {
            None => None,
            Some(pk) => {
                let p = pk.0;
                let k = pk.1;
                if 1 <= k <= ls.len() {
                    match parse_doc(ls.skip(k)) {
                        None => None,
                        Some(tail) => Some(seq![p] + tail),
                    }
                } else {
                    None
                }
            },
        }
    }
}

/// Reading a written `key = "value"` line gives the value back.
pub proof fn lemma_parse_pair_key_line(k: Seq<char>, v: Seq<char>)
    ensures
        parse_pair(key_line(k, v), k) == Some(v),
{
    let line = key_line(k, v);
    let pfx = k + mid_eq();
    assert(line =~= pfx + escape(v) + seq!['"']);
    assert(line.len() == pfx.len() + escape(v).len() + 1);
    assert(line.subrange(0, pfx.len() as int) =~= pfx);
    assert(line[line.len() - 1] == '"');
    assert(line.subrange(pfx.len() as int, line.len() - 1) =~= escape(v));
    lemma_unescape_escape(v);
}

/// A line that opens with a different character than the key never reads as
/// that key's line.
pub proof fn lemma_parse_pair_mismatch(line: Seq<char>, key: Seq<char>)
    requires
        key.len() > 0,
        line.len() == 0 || line[0] != key[0],
    ensures
        parse_pair(line, key) is None,
{
    let pfx = key + mid_eq();
    assert(pfx[0] == key[0]);
    if line.len() >= pfx.len() + 1 && line.subrange(0, pfx.len() as int) == pfx {
        assert(line.subrange(0, pfx.len() as int)[0] == line[0]);
    }
}

/// Reading a written package block from the head of any document gives the
/// record back, provided whatever follows opens with a header line.
pub proof fn lemma_parse_pkg_encode(p: LockedPackageView, rest: Seq<Seq<char>>)
    requires
        rest.len() > 0 ==> rest[0].len() > 0 && rest[0][0] == '[',
    ensures
        parse_pkg(pkg_lines(p) + rest) == Some((p, pkg_lines(p).len() as int)),
{
    let pl = pkg_lines(p);
    let ls = pl + rest;
    assert(parse_header(header_line(p.name)) == Some(p.name)) by {
        let h = header_line(p.name);
        assert(h.len() == p.name.len() + 2);
        assert(h[0] == '[');
        assert(h[h.len() - 1] == ']');
        assert(h.subrange(1, h.len() - 1) =~= p.name);
    }
    lemma_parse_pair_key_line(key_version(), p.version);
    lemma_parse_pair_key_line(key_source(), github_word());
    lemma_parse_pair_key_line(key_repo(), p.source.repo);
    lemma_parse_pair_key_line(key_filename(), p.filename);
    assert(key_line(key_filename(), p.filename)[0] == 'f');
    if rest.len() > 0 {
        lemma_parse_pair_mismatch(rest[0], key_url());
        lemma_parse_pair_mismatch(rest[0], key_desc());
    }
    match (p.desc, p.download_url) {
        (Some(d), Some(u)) => {
            lemma_parse_pair_key_line(key_desc(), d);
            lemma_parse_pair_key_line(key_url(), u);
            assert(pl.len() == 7);
            assert(ls[0] == header_line(p.name) && ls[1] == key_line(key_version(), p.version)
                && ls[2] == key_line(key_source(), github_word()) && ls[3] == key_line(
                key_repo(),
                p.source.repo,
            ) && ls[4] == key_line(key_desc(), d) && ls[5] == key_line(key_filename(), p.filename)
                && ls[6] == key_line(key_url(), u));
            assert(parse_pkg(ls) == Some((p, 7int))) by {
                assert(p =~= LockedPackageView {
                    name: p.name,
                    version: p.version,
                    source: crate::pkg::SourceView { repo: p.source.repo },
                    desc: Some(d),
                    filename: p.filename,
                    download_url: Some(u),
                });
            }
        },
        (Some(d), None) => {
            lemma_parse_pair_key_line(key_desc(), d);
            assert(pl.len() == 6);
            assert(ls[0] == header_line(p.name) && ls[1] == key_line(key_version(), p.version)
                && ls[2] == key_line(key_source(), github_word()) && ls[3] == key_line(
                key_repo(),
                p.source.repo,
            ) && ls[4] == key_line(key_desc(), d) && ls[5] == key_line(key_filename(), p.filename));
            if rest.len() > 0 {
                assert(ls[6] == rest[0]);
            }
            assert(parse_pkg(ls) == Some((p, 6int))) by {
                assert(p =~= LockedPackageView {
                    name: p.name,
                    version: p.version,
                    source: crate::pkg::SourceView { repo: p.source.repo },
                    desc: Some(d),
                    filename: p.filename,
                    download_url: None,
                });
            }
        },
        (None, Some(u)) => {
            lemma_parse_pair_key_line(key_url(), u);
            lemma_parse_pair_mismatch(key_line(key_filename(), p.filename), key_desc());
            assert(pl.len() == 6);
            assert(ls[0] == header_line(p.name) && ls[1] == key_line(key_version(), p.version)
                && ls[2] == key_line(key_source(), github_word()) && ls[3] == key_line(
                key_repo(),
                p.source.repo,
            ) && ls[4] == key_line(key_filename(), p.filename) && ls[5] == key_line(key_url(), u));
            assert(parse_pkg(ls) == Some((p, 6int))) by {
                assert(p =~= LockedPackageView {
                    name: p.name,
                    version: p.version,
                    source: crate::pkg::SourceView { repo: p.source.repo },
                    desc: None,
                    filename: p.filename,
                    download_url: Some(u),
                });
            }
        },
        (None, None) => {
            lemma_parse_pair_mismatch(key_line(key_filename(), p.filename), key_desc());
            assert(pl.len() == 5);
            assert(ls[0] == header_line(p.name) && ls[1] == key_line(key_version(), p.version)
                && ls[2] == key_line(key_source(), github_word()) && ls[3] == key_line(
                key_repo(),
                p.source.repo,
            ) && ls[4] == key_line(key_filename(), p.filename));
            if rest.len() > 0 {
                assert(ls[5] == rest[0]);
            }
            assert(parse_pkg(ls) == Some((p, 5int))) by {
                assert(p =~= LockedPackageView {
                    name: p.name,
                    version: p.version,
                    source: crate::pkg::SourceView { repo: p.source.repo },
                    desc: None,
                    filename: p.filename,
                    download_url: None,
                });
            }
        },
    }
}

/// The document text: every line followed by a newline.
pub open spec fn render(ls: Seq<Seq<char>>) -> Seq<char>
    decreases ls.len(),
{
    if ls.len() == 0 {
        Seq::empty()
    } else {
        ls[0] + seq!['\n'] + render(ls.drop_first())
    }
}

/// Rendering distributes over appending a line.
pub proof fn lemma_render_snoc(ls: Seq<Seq<char>>, l: Seq<char>)
    ensures
        render(ls.push(l)) == render(ls) + l + seq!['\n'],
    decreases ls.len(),
{
    if ls.len() == 0 {
        assert(ls.push(l)[0] == l);
        assert(ls.push(l).drop_first() =~= Seq::<Seq<char>>::empty());
        assert(render(Seq::<Seq<char>>::empty()) =~= Seq::<char>::empty());
        assert(render(ls.push(l)) == l + seq!['\n'] + render(ls.push(l).drop_first()));
        assert(l + seq!['\n'] + Seq::<char>::empty() =~= l + seq!['\n']);
        assert(render(ls.push(l)) =~= l + seq!['\n']);
        assert(render(ls) + l + seq!['\n'] =~= l + seq!['\n']);
    } else {
        lemma_render_snoc(ls.drop_first(), l);
        assert(ls.push(l).drop_first() =~= ls.drop_first().push(l));
        assert(ls.push(l)[0] == ls[0]);
        assert(render(ls.push(l)) =~= ls[0] + seq!['\n'] + (render(ls.drop_first()) + l + seq![
            '\n',
        ]));
        assert(ls[0] + seq!['\n'] + (render(ls.drop_first()) + l + seq!['\n']) =~= render(ls) + l
            + seq!['\n']);
    }
}

/// The lines of a text, splitting at every newline; `cur` is the part of
/// the current line already read.
pub open spec fn split_from(s: Seq<char>, cur: Seq<char>) -> Seq<Seq<char>>
    decreases s.len(),
{
    if s.len() == 0 {
        if cur.len() == 0 {
            Seq::empty()
        } else {
            seq![cur]
        }
    } else if s[0] == '\n' {
        seq![cur] + split_from(s.drop_first(), Seq::empty())
    } else {
        split_from(s.drop_first(), cur.push(s[0]))
    }
}

/// The lines of a text.
pub open spec fn split_lines(s: Seq<char>) -> Seq<Seq<char>> {
    split_from(s, Seq::empty())
}

/// Splitting takes one clean line at a time off the front.
proof fn lemma_split_line(l: Seq<char>, tail: Seq<char>, cur: Seq<char>)
    requires
        line_clean(l),
    ensures
        split_from(l + seq!['\n'] + tail, cur) == seq![cur + l] + split_from(tail, Seq::empty()),
    decreases l.len(),
{
    let s = l + seq!['\n'] + tail;
    if l.len() == 0 {
        assert(s[0] == '\n');
        assert(s.drop_first() =~= tail);
        assert(cur + l =~= cur);
    } else {
        assert(s[0] == l[0] && l[0] != '\n');
        lemma_split_line(l.drop_first(), tail, cur.push(l[0]));
        assert(s.drop_first() =~= l.drop_first() + seq!['\n'] + tail);
        assert(cur.push(l[0]) + l.drop_first() =~= cur + l);
    }
}

/// Law, the other half of the round trip: splitting a rendered document
/// gives the lines back, provided each line keeps to one line.
pub proof fn lemma_split_render(ls: Seq<Seq<char>>)
    requires
        forall|i: int| 0 <= i < ls.len() ==> line_clean(#[trigger] ls[i]),
    ensures
        split_lines(render(ls)) == ls,
    decreases ls.len(),
{
    if ls.len() == 0 {
        assert(split_lines(render(ls)) =~= ls);
    } else {
        lemma_split_line(ls[0], render(ls.drop_first()), Seq::empty());
        lemma_split_render(ls.drop_first());
        assert(Seq::<char>::empty() + ls[0] =~= ls[0]);
        assert(seq![ls[0]] + ls.drop_first() =~= ls);
    }
}

/// A sequence without newlines is clean.
proof fn lemma_clean_of_no_nl(s: Seq<char>)
    requires
        forall|i: int| 0 <= i < s.len() ==> s[i] != '\n',
    ensures
        line_clean(s),
    decreases s.len(),
{
    if s.len() > 0 {
        assert(forall|i: int| 0 <= i < s.drop_first().len() ==> s.drop_first()[i] == s[i + 1]);
        lemma_clean_of_no_nl(s.drop_first());
    }
}

/// Every line a `key = "value"` pair is written as is clean.
proof fn lemma_key_line_clean(k: Seq<char>, v: Seq<char>)
    requires
        line_clean(k),
    ensures
        line_clean(key_line(k, v)),
{
    lemma_escape_line_clean(v);
    assert(line_clean(mid_eq())) by {
        lemma_clean_of_no_nl(mid_eq());
    }
    assert(line_clean(seq!['"'])) by {
        lemma_clean_of_no_nl(seq!['"']);
    }
    lemma_clean_append(k, mid_eq());
    lemma_clean_append(k + mid_eq(), escape(v));
    lemma_clean_append(k + mid_eq() + escape(v), seq!['"']);
}

/// Every line a record is written as is clean, when its name is.
proof fn lemma_pkg_lines_clean(p: LockedPackageView)
    requires
        line_clean(p.name),
    ensures
        forall|i: int| 0 <= i < pkg_lines(p).len() ==> line_clean(#[trigger] pkg_lines(p)[i]),
{
    assert(line_clean(header_line(p.name))) by {
        assert(line_clean(seq!['['])) by {
        lemma_clean_of_no_nl(seq!['[']);
    }
        assert(line_clean(seq![']'])) by {
        lemma_clean_of_no_nl(seq![']']);
    }
        lemma_clean_append(seq!['['], p.name);
        lemma_clean_append(seq!['['] + p.name, seq![']']);
    }
    assert(line_clean(key_version())) by {
        lemma_clean_of_no_nl(key_version());
    }
    assert(line_clean(key_source())) by {
        lemma_clean_of_no_nl(key_source());
    }
    assert(line_clean(key_repo())) by {
        lemma_clean_of_no_nl(key_repo());
    }
    assert(line_clean(key_desc())) by {
        lemma_clean_of_no_nl(key_desc());
    }
    assert(line_clean(key_filename())) by {
        lemma_clean_of_no_nl(key_filename());
    }
    assert(line_clean(key_url())) by {
        lemma_clean_of_no_nl(key_url());
    }
    lemma_key_line_clean(key_version(), p.version);
    lemma_key_line_clean(key_source(), github_word());
    lemma_key_line_clean(key_repo(), p.source.repo);
    lemma_key_line_clean(key_filename(), p.filename);
    if p.desc is Some {
        lemma_key_line_clean(key_desc(), p.desc->0);
    }
    if p.download_url is Some {
        lemma_key_line_clean(key_url(), p.download_url->0);
    }
}

/// Every line a store is written as is clean, when every name is.
proof fn lemma_doc_lines_clean(ps: Seq<LockedPackageView>)
    requires
        forall|k: int| 0 <= k < ps.len() ==> line_clean((#[trigger] ps[k]).name),
    ensures
        forall|i: int| 0 <= i < doc_lines(ps).len() ==> line_clean(#[trigger] doc_lines(ps)[i]),
    decreases ps.len(),
{
    if ps.len() > 0 {
        lemma_pkg_lines_clean(ps[0]);
        lemma_doc_lines_clean(ps.drop_first());
        let pl = pkg_lines(ps[0]);
        let rest = doc_lines(ps.drop_first());
        assert forall|i: int| 0 <= i < doc_lines(ps).len() implies line_clean(
            #[trigger] doc_lines(ps)[i],
        ) by {
            if i < pl.len() {
                assert(doc_lines(ps)[i] == pl[i]);
            } else {
                assert(doc_lines(ps)[i] == rest[i - pl.len()]);
            }
        }
    }
}

/// Law: the lock-file round trip. A store whose package names keep to one
/// line, written out and parsed back, yields exactly the records that were
/// written — the same names and the same fields, and with them the same
/// name-to-package map.
pub proof fn lemma_lockfile_round_trip(ps: Seq<LockedPackageView>)
    requires
        forall|k: int| 0 <= k < ps.len() ==> line_clean((#[trigger] ps[k]).name),
    ensures
        parse_doc(split_lines(render(doc_lines(ps)))) == Some(ps),
{
    lemma_doc_lines_clean(ps);
    lemma_split_render(doc_lines(ps));
    lemma_parse_doc_encode(ps);
}

/// The abstract values of a vector of lines.
pub open spec fn line_views(s: Seq<Vec<char>>) -> Seq<Seq<char>> {
    s.map_values(|l: Vec<char>| l@)
}

/// The abstract values of a vector of locked records.
pub open spec fn lpkg_views(s: Seq<LockedPackage>) -> Seq<LockedPackageView> {
    s.map_values(|p: LockedPackage| p@)
}

/// Writing one more record appends its lines.
proof fn lemma_doc_lines_snoc(ps: Seq<LockedPackageView>, p: LockedPackageView)
    ensures
        doc_lines(ps.push(p)) == doc_lines(ps) + pkg_lines(p),
    decreases ps.len(),
{
    if ps.len() == 0 {
        assert(ps.push(p)[0] == p);
        assert(ps.push(p).drop_first() =~= Seq::<LockedPackageView>::empty());
        assert(doc_lines(Seq::<LockedPackageView>::empty()) =~= Seq::<Seq<char>>::empty());
        assert(doc_lines(ps.push(p)) == pkg_lines(p) + doc_lines(ps.push(p).drop_first()));
        assert(pkg_lines(p) + Seq::<Seq<char>>::empty() =~= pkg_lines(p));
        assert(doc_lines(ps.push(p)) =~= pkg_lines(p));
        assert(doc_lines(ps) + pkg_lines(p) =~= pkg_lines(p));
    } else {
        lemma_doc_lines_snoc(ps.drop_first(), p);
        assert(ps.push(p).drop_first() =~= ps.drop_first().push(p));
        assert(ps.push(p)[0] == ps[0]);
        assert(doc_lines(ps.push(p)) =~= pkg_lines(ps[0]) + (doc_lines(ps.drop_first())
            + pkg_lines(p)));
        assert(pkg_lines(ps[0]) + (doc_lines(ps.drop_first()) + pkg_lines(p)) =~= doc_lines(ps)
            + pkg_lines(p));
    }
}

/// The header line of a package, executably.
fn make_header(name: &str) -> (r: Vec<char>)
    ensures
        r@ == header_line(name@),
{
    let mut r: Vec<char> = Vec::new();
    r.push('[');
    let cs = chars_of(name);
    crate::text::append_chars(&mut r, &cs);
    r.push(']');
    assert(r@ =~= header_line(name@));
    r
}

/// A `key = "value"` line, executably.
fn make_key_line(key: &Vec<char>, value: &str) -> (r: Vec<char>)
    ensures
        r@ == key_line(key@, value@),
{
    let mut r: Vec<char> = Vec::new();
    crate::text::append_chars(&mut r, key);
    r.push(' ');
    r.push('=');
    r.push(' ');
    r.push('"');
    let vs = chars_of(value);
    let esc = escape_chars(&vs);
    crate::text::append_chars(&mut r, &esc);
    r.push('"');
    assert(r@ =~= key_line(key@, value@));
    r
}

/// Write the store out as its lock-file text.
pub fn encode_locked(cfg: &LockedConfig) -> (r: String)
    ensures
        r@ == render(doc_lines(lpkg_views(cfg.pkgs@))),
{
    let ghost vs = lpkg_views(cfg.pkgs@);
    let mut all: Vec<Vec<char>> = Vec::new();
    let mut i: usize = 0;
    while i < cfg.pkgs.len()
        invariant
            i <= cfg.pkgs@.len(),
            vs == lpkg_views(cfg.pkgs@),
            line_views(all@) == doc_lines(vs.take(i as int)),
        decreases cfg.pkgs@.len() - i,
    {
        let p = &cfg.pkgs[i];
        assert(vs[i as int] == p@);
        let ghost all0 = all@;
        all.push(make_header(p.name.as_str()));
        let kv: Vec<char> = vec!['v', 'e', 'r', 's', 'i', 'o', 'n'];
        assert(kv@ =~= key_version());
        all.push(make_key_line(&kv, p.version.as_str()));
        let ks: Vec<char> = vec!['s', 'o', 'u', 'r', 'c', 'e'];
        assert(ks@ =~= key_source());
        proof {
            reveal_strlit("github");
            assert("github"@ =~= github_word());
        }
        all.push(make_key_line(&ks, "github"));
        let kr: Vec<char> = vec!['r', 'e', 'p', 'o'];
        assert(kr@ =~= key_repo());
        all.push(make_key_line(&kr, p.source.repo().as_str()));
        match &p.desc {
            Some(d) => {
                let kd: Vec<char> = vec!['d', 'e', 's', 'c'];
                assert(kd@ =~= key_desc());
                all.push(make_key_line(&kd, d.as_str()));
            },
            None => (),
        }
        let kf: Vec<char> = vec!['f', 'i', 'l', 'e', 'n', 'a', 'm', 'e'];
        assert(kf@ =~= key_filename());
        all.push(make_key_line(&kf, p.filename.as_str()));
        match &p.download_url {
            Some(u) => {
                let ku: Vec<char> = vec!['d', 'o', 'w', 'n', 'l', 'o', 'a', 'd', '_', 'u', 'r', 'l'];
                assert(ku@ =~= key_url());
                all.push(make_key_line(&ku, u.as_str()));
            },
            None => (),
        }
        proof {
            assert(line_views(all@) =~= line_views(all0) + pkg_lines(vs[i as int]));
            lemma_doc_lines_snoc(vs.take(i as int), vs[i as int]);
            assert(vs.take(i + 1) =~= vs.take(i as int).push(vs[i as int]));
        }
        i += 1;
    }
    proof {
        assert(vs.take(vs.len() as int) =~= vs);
    }
    let mut out = String::new();
    let ghost lv = line_views(all@);
    let mut j: usize = 0;
    while j < all.len()
        invariant
            j <= all@.len(),
            lv == line_views(all@),
            out@ == render(lv.take(j as int)),
        decreases all@.len() - j,
    {
        assert(lv[j as int] == all@[j as int]@);
        let line = string_from_chars(&all[j]);
        out.append(line.as_str());
        proof {
            reveal_strlit("\n");
            assert("\n"@ =~= seq!['\n']);
        }
        out.append("\n");
        proof {
            lemma_render_snoc(lv.take(j as int), lv[j as int]);
            assert(lv.take(j + 1) =~= lv.take(j as int).push(lv[j as int]));
        }
        j += 1;
    }
    proof {
        assert(lv.take(lv.len() as int) =~= lv);
    }
    out
}

/// Split a text into its lines, executably.
fn split_exec(cs: &Vec<char>) -> (r: Vec<Vec<char>>)
    ensures
        line_views(r@) == split_lines(cs@),
{
    let n = cs.len();
    let mut out: Vec<Vec<char>> = Vec::new();
    let mut cur: Vec<char> = Vec::new();
    let mut i: usize = 0;
    proof {
        assert(cs@.skip(0) =~= cs@);
        assert(line_views(Seq::<Vec<char>>::empty()) =~= Seq::<Seq<char>>::empty());
        assert(Seq::<Seq<char>>::empty() + split_from(cs@, Seq::<char>::empty()) =~= split_from(
            cs@,
            Seq::<char>::empty(),
        ));
    }
    while i < n
        invariant
            i <= n,
            n == cs@.len(),
            line_views(out@) + split_from(cs@.skip(i as int), cur@) == split_lines(cs@),
        decreases n - i,
    {
        let ghost tail = cs@.skip(i as int);
        let c = cs[i];
        assert(tail[0] == c);
        assert(tail.drop_first() =~= cs@.skip(i + 1));
        if c == '\n' {
            let ghost out0 = out@;
            let ghost cur0 = cur@;
            out.push(cur);
            cur = Vec::new();
            proof {
                assert(split_from(tail, cur0) == seq![cur0] + split_from(
                    cs@.skip(i + 1),
                    Seq::<char>::empty(),
                ));
                assert(line_views(out@) =~= line_views(out0).push(cur0));
                assert(line_views(out0) + (seq![cur0] + split_from(
                    cs@.skip(i + 1),
                    Seq::<char>::empty(),
                )) =~= line_views(out@) + split_from(cs@.skip(i + 1), Seq::<char>::empty()));
            }
        } else {
            cur.push(c);
        }
        i += 1;
    }
    proof {
        assert(cs@.skip(n as int) =~= Seq::<char>::empty());
    }
    if cur.len() > 0 {
        let ghost out0 = out@;
        let ghost cur0 = cur@;
        out.push(cur);
        proof {
            assert(split_from(Seq::<char>::empty(), cur0) =~= seq![cur0]);
            assert(line_views(out@) =~= line_views(out0).push(cur0));
            assert(line_views(out0) + seq![cur0] =~= line_views(out@));
        }
    } else {
        proof {
            assert(split_from(Seq::<char>::empty(), cur@) =~= Seq::<Seq<char>>::empty());
            assert(line_views(out@) + Seq::<Seq<char>>::empty() =~= line_views(out@));
        }
    }
    out
}

/// Read a header line, executably.
fn parse_header_at(line: &Vec<char>) -> (r: Option<Vec<char>>)
    ensures
        match r {
            Some(name) => parse_header(line@) == Some(name@),
            None => parse_header(line@) is None,
        },
{
    let n = line.len();
    if n >= 2 && line[0] == '[' && line[n - 1] == ']' {
        Some(sub_vec(line, 1, n - 1))
    } else {
        None
    }
}

/// Read a `key = "value"` line, executably.
fn parse_pair_at(line: &Vec<char>, key: &Vec<char>) -> (r: Option<Vec<char>>)
    ensures
        match r {
            Some(v) => parse_pair(line@, key@) == Some(v@),
            None => parse_pair(line@, key@) is None,
        },
{
    let ghost pfx = key@ + mid_eq();
    let n = line.len();
    let klen = key.len();
    if n < 5 || klen > n - 5 {
        assert(line@.len() < pfx.len() + 1);
        assert(parse_pair(line@, key@) is None);
        return None;
    }
    let mut i: usize = 0;
    while i < klen
        invariant
            i <= klen,
            klen + 5 <= n,
            n == line@.len(),
            klen == key@.len(),
            pfx == key@ + mid_eq(),
            forall|t: int| 0 <= t < i ==> line@[t] == key@[t],
        decreases klen - i,
    {
        if line[i] != key[i] {
            proof {
                assert(pfx[i as int] == key@[i as int]);
                if line@.subrange(0, pfx.len() as int) == pfx {
                    assert(line@.subrange(0, pfx.len() as int)[i as int] == line@[i as int]);
                }
            }
            return None;
        }
        i += 1;
    }
    if !(line[klen] == ' ' && line[klen + 1] == '=' && line[klen + 2] == ' ' && line[klen + 3]
        == '"' && line[n - 1] == '"') {
        proof {
            if line@.subrange(0, pfx.len() as int) == pfx {
                assert(forall|t: int|
                    0 <= t < pfx.len() ==> line@[t] == #[trigger] pfx[t]) by {
                    assert(forall|t: int|
                        0 <= t < pfx.len() ==> line@.subrange(0, pfx.len() as int)[t] == line@[t]);
                }
                assert(pfx[klen as int] == ' ');
                assert(pfx[klen + 1] == '=');
                assert(pfx[klen + 2] == ' ');
                assert(pfx[klen + 3] == '"');
            }
        }
        return None;
    }
    proof {
        assert(line@.subrange(0, pfx.len() as int) =~= pfx);
    }
    let mid = sub_vec(line, klen + 4, n - 1);
    assert(mid@ == line@.subrange(pfx.len() as int, line@.len() - 1));
    unescape_chars(&mid)
}

/// Read one package's block starting at line `pos`, executably.
fn parse_pkg_at(lines: &Vec<Vec<char>>, pos: usize) -> (r: Option<(LockedPackage, usize)>)
    requires
        pos <= lines@.len(),
    ensures
        match r {
            Some(pk) => parse_pkg(line_views(lines@).skip(pos as int)) == Some(
                (pk.0@, pk.1 as int),
            ) && 1 <= pk.1 && pos + pk.1 <= lines@.len(),
            None => parse_pkg(line_views(lines@).skip(pos as int)) is None,
        },
{
    let ghost lv = line_views(lines@);
    let ghost ls = lv.skip(pos as int);
    let n = lines.len();
    if n - pos < 5 {
        assert(ls.len() < 5);
        return None;
    }
    proof {
        assert(forall|j: int| 0 <= j < ls.len() ==> #[trigger] ls[j] == lines@[pos + j]@);
    }
    let name = match parse_header_at(&lines[pos]) {
        Some(v) => v,
        None => {
            return None;
        },
    };
    let kv: Vec<char> = vec!['v', 'e', 'r', 's', 'i', 'o', 'n'];
    assert(kv@ =~= key_version());
    let version = match parse_pair_at(&lines[pos + 1], &kv) {
        Some(v) => v,
        None => {
            return None;
        },
    };
    let ks: Vec<char> = vec!['s', 'o', 'u', 'r', 'c', 'e'];
    assert(ks@ =~= key_source());
    let src = match parse_pair_at(&lines[pos + 2], &ks) {
        Some(v) => v,
        None => {
            return None;
        },
    };
    let gh: Vec<char> = vec!['g', 'i', 't', 'h', 'u', 'b'];
    assert(gh@ =~= github_word());
    if !crate::text::chars_eq(&src, &gh) {
        return None;
    }
    let kr: Vec<char> = vec!['r', 'e', 'p', 'o'];
    assert(kr@ =~= key_repo());
    let repo = match parse_pair_at(&lines[pos + 3], &kr) {
        Some(v) => v,
        None => {
            return None;
        },
    };
    let kd: Vec<char> = vec!['d', 'e', 's', 'c'];
    assert(kd@ =~= key_desc());
    let dd: (Option<Vec<char>>, usize) = match parse_pair_at(&lines[pos + 4], &kd) {
        Some(d) => (Some(d), 5),
        None => (None, 4),
    };
    let desc = dd.0;
    let off = dd.1;
    if pos + off >= n {
        assert(4 <= off);
        assert(off as int >= ls.len() ==> parse_pkg(ls) is None);
        return None;
    }
    let kf: Vec<char> = vec!['f', 'i', 'l', 'e', 'n', 'a', 'm', 'e'];
    assert(kf@ =~= key_filename());
    let filename = match parse_pair_at(&lines[pos + off], &kf) {
        Some(v) => v,
        None => {
            return None;
        },
    };
    let ku: Vec<char> = vec!['d', 'o', 'w', 'n', 'l', 'o', 'a', 'd', '_', 'u', 'r', 'l'];
    assert(ku@ =~= key_url());
    let uu: (Option<Vec<char>>, usize) = if pos + off + 1 < n {
        match parse_pair_at(&lines[pos + off + 1], &ku) {
            Some(u) => (Some(u), off + 2),
            None => (None, off + 1),
        }
    } else {
        (None, off + 1)
    };
    let url = uu.0;
    let consumed = uu.1;
    let pkg = LockedPackage {
        name: string_from_chars(&name),
        version: string_from_chars(&version),
        source: crate::pkg::Source::Github { repo: string_from_chars(&repo) },
        desc: match desc {
            Some(d) => Some(string_from_chars(&d)),
            None => None,
        },
        filename: string_from_chars(&filename),
        download_url: match url {
            Some(u) => Some(string_from_chars(&u)),
            None => None,
        },
    };
    proof {
        assert(parse_pkg(ls) is Some);
        let ghost parsed = parse_pkg(ls)->0;
        assert(parse_pkg(ls) == Some((pkg@, consumed as int))) by {
            assert(pkg@ =~= parsed.0);
            assert(consumed as int == parsed.1);
        }
    }
    Some((pkg, consumed))
}

/// Whether any two of the parsed records share a name.
pub open spec fn unique_names(ps: Seq<LockedPackageView>) -> bool {
    forall|i: int, j: int| 0 <= i < j < ps.len() ==> ps[i].name != ps[j].name
}

/// Read a whole lock file. Fails with a parse error when the text is not a
/// document this codec writes, or when two records share a name.
pub fn parse_locked(text: &str) -> (r: Result<LockedConfig, Error>)
    ensures
        match r {
            Ok(cfg) => {
                &&& cfg.wf()
                &&& parse_doc(split_lines(text@)) == Some(lpkg_views(cfg.pkgs@))
            },
            Err(e) => e is Parse && (parse_doc(split_lines(text@)) is None || !unique_names(
                parse_doc(split_lines(text@))->0,
            )),
        },
{
    let cs = chars_of(text);
    let lines = split_exec(&cs);
    let ghost lv = line_views(lines@);
    let n = lines.len();
    let mut pkgs: Vec<LockedPackage> = Vec::new();
    let mut pos: usize = 0;
    proof {
        assert(lv.skip(0) =~= lv);
        assert(lpkg_views(Seq::<LockedPackage>::empty()) =~= Seq::<LockedPackageView>::empty());
        if parse_doc(lv) is Some {
            assert(Seq::<LockedPackageView>::empty() + parse_doc(lv)->0 =~= parse_doc(lv)->0);
        }
    }
    while pos < n
        invariant
            pos <= n,
            n == lines@.len(),
            lv == line_views(lines@),
            lv == split_lines(text@),
            match parse_doc(lv.skip(pos as int)) {
                Some(tail) => parse_doc(lv) == Some(lpkg_views(pkgs@) + tail),
                None => parse_doc(lv) is None,
            },
        decreases n - pos,
    {
        let ghost ls = lv.skip(pos as int);
        assert(ls.len() > 0);
        match parse_pkg_at(&lines, pos) {
            Some(pk) => {
                let (pkg, k) = pk;
                let ghost pv = pkg@;
                let ghost pk0 = pkgs@;
                pkgs.push(pkg);
                proof {
                    assert(ls.skip(k as int) =~= lv.skip(pos + k));
                    if parse_doc(lv.skip(pos + k)) is Some {
                        let tail2 = parse_doc(lv.skip(pos + k))->0;
                        assert(parse_doc(ls) == Some(seq![pv] + tail2));
                        assert(lpkg_views(pkgs@) =~= lpkg_views(pk0).push(pv));
                        assert(lpkg_views(pk0) + (seq![pv] + tail2) =~= lpkg_views(pkgs@) + tail2);
                    }
                }
                pos = pos + k;
            },
            None => {
                proof {
                    assert(parse_doc(ls) is None);
                }
                return Err(Error::Parse("the lock file is not in the expected format".to_owned()));
            },
        }
    }
    proof {
        assert(lv.skip(n as int) =~= Seq::<Seq<char>>::empty());
        assert(parse_doc(Seq::<Seq<char>>::empty()) == Some(Seq::<LockedPackageView>::empty()));
        assert(lpkg_views(pkgs@) + Seq::<LockedPackageView>::empty() =~= lpkg_views(pkgs@));
    }
    // Refuse duplicate names, so that the store is well-formed.
    let m = pkgs.len();
    let mut a: usize = 0;
    while a < m
        invariant
            a <= m,
            m == pkgs@.len(),
            parse_doc(split_lines(text@)) == Some(lpkg_views(pkgs@)),
            forall|x: int, y: int| 0 <= x < y < pkgs@.len() && x < a ==> pkgs@[x]@.name != pkgs@[y]@.name,
        decreases m - a,
    {
        let mut b: usize = a + 1;
        while b < m
            invariant
                a < b,
                b <= m,
                a < m,
                m == pkgs@.len(),
                parse_doc(split_lines(text@)) == Some(lpkg_views(pkgs@)),
                forall|y: int| a < y < b ==> pkgs@[a as int]@.name != pkgs@[y]@.name,
            decreases m - b,
        {
            if crate::text::str_eq(pkgs[a].name.as_str(), pkgs[b].name.as_str()) {
                proof {
                    let ps = parse_doc(split_lines(text@))->0;
                    assert(ps == lpkg_views(pkgs@));
                    assert(ps[a as int] == pkgs@[a as int]@ && ps[b as int] == pkgs@[b as int]@);
                }
                return Err(Error::Parse("the lock file names one package twice".to_owned()));
            }
            b += 1;
        }
        a += 1;
    }
    let cfg = LockedConfig { pkgs };
    proof {
        assert(cfg.wf());
    }
    Ok(cfg)
}

/// Law, the corollary for the store itself: two stores whose records are
/// equal field by field denote the same name-to-package map. With the round
/// trip above, a written and re-read store keeps its map exactly.
pub proof fn lemma_same_records_same_map(a: Seq<LockedPackage>, b: Seq<LockedPackage>)
    requires
        lpkg_views(a) == lpkg_views(b),
    ensures
        crate::lockfile::map_upto(a, a.len() as int) == crate::lockfile::map_upto(
            b,
            b.len() as int,
        ),
{
    assert(a.len() == b.len()) by {
        assert(lpkg_views(a).len() == a.len());
        assert(lpkg_views(b).len() == b.len());
    }
    lemma_same_records_same_map_upto(a, b, a.len() as int);
}

proof fn lemma_same_records_same_map_upto(a: Seq<LockedPackage>, b: Seq<LockedPackage>, n: int)
    requires
        lpkg_views(a) == lpkg_views(b),
        n <= a.len(),
        a.len() == b.len(),
    ensures
        crate::lockfile::map_upto(a, n) == crate::lockfile::map_upto(b, n),
    decreases n,
{
    if n > 0 {
        lemma_same_records_same_map_upto(a, b, n - 1);
        assert(a[n - 1]@ == lpkg_views(a)[n - 1]);
        assert(b[n - 1]@ == lpkg_views(b)[n - 1]);
    }
}

/// Reading the written lines of a whole store gives every record back.
pub proof fn lemma_parse_doc_encode(ps: Seq<LockedPackageView>)
    ensures
        parse_doc(doc_lines(ps)) == Some(ps),
    decreases ps.len(),
{
    if ps.len() == 0 {
        assert(doc_lines(ps).len() == 0);
        assert(Some(Seq::<LockedPackageView>::empty()) == Some(ps)) by {
            assert(ps =~= Seq::<LockedPackageView>::empty());
        }
    } else {
        let p = ps[0];
        let rest = doc_lines(ps.drop_first());
        if ps.drop_first().len() > 0 {
            let q = ps.drop_first()[0];
            assert(rest[0] == pkg_lines(q)[0]);
            assert(pkg_lines(q)[0] == header_line(q.name));
            assert(header_line(q.name)[0] == '[');
            assert(header_line(q.name).len() >= 2);
        } else {
            assert(rest.len() == 0);
        }
        lemma_parse_pkg_encode(p, rest);
        lemma_parse_doc_encode(ps.drop_first());
        let pl = pkg_lines(p);
        let ls = pl + rest;
        assert(ls.len() >= 5);
        assert(ls.skip(pl.len() as int) =~= rest);
        assert(seq![p] + ps.drop_first() =~= ps);
    }
}

} // verus!
