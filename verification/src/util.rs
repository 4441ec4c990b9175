//! Small text utilities: emoji shortcode replacement for descriptions.

use vstd::prelude::*;
use crate::archive::sub_vec;
use crate::text::{chars_of, string_from_chars};

verus! {

/// Text that can have its `:shortcode:` runs replaced by emoji.
pub trait Emojify {
    /// This text with every known `:shortcode:` replaced.
    fn emojify(&self) -> String;
}

impl Emojify for String {
    fn emojify(&self) -> String {
        emojify(self.as_str())
    }
}

/// What the emoji table maps a shortcode to, when it knows it. A fixed
/// table: a function of the shortcode alone.
pub uninterp spec fn shortcode_emoji(code: Seq<char>) -> Option<Seq<char>>;

/// Relies on emojis' `get_by_shortcode`: a lookup in a fixed table, a
/// function of the shortcode alone.
#[verifier::external_body]
fn emoji_lookup(code: &str) -> (r: Option<String>)
    ensures
        match r {
            Some(e) => shortcode_emoji(code@) == Some(e@),
            None => shortcode_emoji(code@) is None,
        },
{
    emojis::get_by_shortcode(code).map(|e| e.as_str().to_string())
}

/// The first index at or after `i` holding a colon, or the length.
pub open spec fn colon_end(s: Seq<char>, i: int) -> int
    decreases s.len() - i,
{
    if i < 0 || i >= s.len() {
        s.len() as int
    } else if s[i] == ':' {
        i
    } else {
        colon_end(s, i + 1)
    }
}

/// The text with every known `:shortcode:` replaced by its emoji: at each
/// colon pair, a known shortcode becomes its emoji and scanning resumes
/// after the pair; an unknown one is kept, and its closing colon may open
/// the next pair.
pub open spec fn emojify_spec(s: Seq<char>) -> Seq<char>
    decreases s.len() via emojify_spec_decreases
{
    let i = colon_end(s, 0);
    if i >= s.len() {
        s
    } else {
        let j = colon_end(s, i + 1);
        if j >= s.len() {
            s
        } else {
            match shortcode_emoji(s.subrange(i + 1, j)) {
                Some(e) => s.subrange(0, i) + e + emojify_spec(s.subrange(j + 1, s.len() as int)),
                None => s.subrange(0, j) + emojify_spec(s.subrange(j, s.len() as int)),
            }
        }
    }
}

#[via_fn]
proof fn emojify_spec_decreases(s: Seq<char>) {
    lemma_colon_end_bounds(s, 0);
    let i = colon_end(s, 0);
    if i < s.len() {
        lemma_colon_end_bounds(s, i + 1);
    }
}

/// Colon positions returned by `colon_end` stay in range.
proof fn lemma_colon_end_bounds(s: Seq<char>, i: int)
    requires
        0 <= i <= s.len(),
    ensures
        i <= colon_end(s, i) <= s.len(),
        colon_end(s, i) < s.len() ==> s[colon_end(s, i)] == ':',
    decreases s.len() - i,
{
    if i < s.len() && s[i] != ':' {
        lemma_colon_end_bounds(s, i + 1);
    }
}

/// Find the first colon at or after `from`, executably.
fn find_colon(cs: &Vec<char>, from: usize) -> (r: usize)
    requires
        from <= cs@.len(),
    ensures
        r == colon_end(cs@, from as int),
        from <= r <= cs@.len(),
        r < cs@.len() ==> cs@[r as int] == ':',
{
    let n = cs.len();
    let mut i: usize = from;
    while i < n && cs[i] != ':'
        invariant
            from <= i <= n,
            n == cs@.len(),
            colon_end(cs@, from as int) == colon_end(cs@, i as int),
        decreases n - i,
    {
        i += 1;
    }
    i
}

fn emojify_chars(cs: &Vec<char>) -> (r: Vec<char>)
    ensures
        r@ == emojify_spec(cs@),
    decreases cs@.len(),
{
    let n = cs.len();
    let i = find_colon(cs, 0);
    if i >= n {
        return sub_vec(cs, 0, n);
    }
    let j = find_colon(cs, i + 1);
    if j >= n {
        proof {
            assert(cs@.subrange(0, n as int) =~= cs@);
        }
        return sub_vec(cs, 0, n);
    }
    let code = sub_vec(cs, i + 1, j);
    let code_s = string_from_chars(&code);
    match emoji_lookup(code_s.as_str()) {
        Some(e) => {
            let mut out = sub_vec(cs, 0, i);
            let ev = chars_of(e.as_str());
            crate::text::append_chars(&mut out, &ev);
            let rest = sub_vec(cs, j + 1, n);
            let tail = emojify_chars(&rest);
            crate::text::append_chars(&mut out, &tail);
            assert(out@ =~= cs@.subrange(0, i as int) + e@ + emojify_spec(
                cs@.subrange(j + 1, n as int),
            ));
            out
        },
        None => {
            let mut out = sub_vec(cs, 0, j);
            let rest = sub_vec(cs, j, n);
            let tail = emojify_chars(&rest);
            crate::text::append_chars(&mut out, &tail);
            assert(out@ =~= cs@.subrange(0, j as int) + emojify_spec(cs@.subrange(j as int, n as int)));
            out
        },
    }
}

/// Replace every known `:shortcode:` in the text by its emoji.
pub fn emojify(s: &str) -> (r: String)
    ensures
        r@ == emojify_spec(s@),
{
    let cs = chars_of(s);
    let out = emojify_chars(&cs);
    string_from_chars(&out)
}

} // verus!
