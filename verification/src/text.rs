//! Character-level string utilities: conversion between `String` and
//! `Vec<char>`, case-insensitive matching, and small sequence helpers.

use vstd::prelude::*;

verus! {

/// The code of a character with ASCII upper-case letters folded to lower case.
pub open spec fn lower_code(c: char) -> int {
    if 65 <= c as int <= 90 {
        c as int + 32
    } else {
        c as int
    }
}

/// Two character sequences are equal up to ASCII case.
pub open spec fn ci_eq(a: Seq<char>, b: Seq<char>) -> bool {
    a.len() == b.len() && forall|i: int| 0 <= i < a.len() ==> lower_code(a[i]) == lower_code(b[i])
}

/// `needle` occurs in `hay` at position `i`, up to ASCII case.
pub open spec fn ci_match_at(hay: Seq<char>, needle: Seq<char>, i: int) -> bool {
    0 <= i && i + needle.len() <= hay.len() && ci_eq(hay.subrange(i, i + needle.len() as int), needle)
}

/// `needle` occurs somewhere in `hay`, up to ASCII case.
pub open spec fn ci_contains(hay: Seq<char>, needle: Seq<char>) -> bool {
    exists|i: int| ci_match_at(hay, needle, i)
}

/// `hay` ends with `needle`, up to ASCII case.
pub open spec fn ci_ends_with(hay: Seq<char>, needle: Seq<char>) -> bool {
    needle.len() <= hay.len() && ci_match_at(hay, needle, hay.len() - needle.len())
}

/// The characters of `s`, as a vector.
pub fn chars_of(s: &str) -> (v: Vec<char>)
    ensures
        v@ == s@,
{
    let n = s.unicode_len();
    let mut v: Vec<char> = Vec::new();
    let mut i: usize = 0;
    while i < n
        invariant
            i <= n,
            n == s@.len(),
            v@ == s@.subrange(0, i as int),
        decreases n - i,
    {
        v.push(s.get_char(i));
        i += 1;
        assert(v@ =~= s@.subrange(0, i as int));
    }
    assert(v@ =~= s@);
    v
}

/// Relies on std's `String::push`: appends exactly the given character.
#[verifier::external_body]
fn push_char(s: &mut String, c: char)
    ensures
        final(s)@ == old(s)@.push(c),
{
    s.push(c);
}

/// A `String` holding exactly the given characters.
pub fn string_from_chars(v: &Vec<char>) -> (s: String)
    ensures
        s@ == v@,
{
    let mut s = String::new();
    let mut i: usize = 0;
    while i < v.len()
        invariant
            i <= v@.len(),
            s@ == v@.subrange(0, i as int),
        decreases v@.len() - i,
    {
        push_char(&mut s, v[i]);
        i += 1;
        assert(s@ =~= v@.subrange(0, i as int));
    }
    assert(s@ =~= v@);
    s
}

/// The case-folded code of a character, executably.
pub fn char_lower(c: char) -> (r: u32)
    ensures
        r == lower_code(c),
{
    let x = c as u32;
    if 65 <= x && x <= 90 {
        x + 32
    } else {
        x
    }
}

/// Whether `needle` occurs at position `i` of `hay`, up to ASCII case.
pub fn matches_at(hay: &Vec<char>, needle: &Vec<char>, i: usize) -> (r: bool)
    requires
        i + needle@.len() <= hay@.len(),
    ensures
        r == ci_match_at(hay@, needle@, i as int),
{
    let n = needle.len();
    let h = hay.len();
    let mut j: usize = 0;
    while j < n
        invariant
            j <= n,
            n == needle@.len(),
            h == hay@.len(),
            i + n <= h,
            forall|k: int| 0 <= k < j ==> lower_code(hay@[i + k]) == lower_code(needle@[k]),
        decreases n - j,
    {
        if char_lower(hay[i + j]) != char_lower(needle[j]) {
            assert(!ci_eq(hay@.subrange(i as int, i + needle@.len() as int), needle@)) by {
                let sub = hay@.subrange(i as int, i + needle@.len() as int);
                assert(sub[j as int] == hay@[i + j]);
            }
            return false;
        }
        j += 1;
    }
    assert(ci_eq(hay@.subrange(i as int, i + needle@.len() as int), needle@)) by {
        let sub = hay@.subrange(i as int, i + needle@.len() as int);
        assert(forall|k: int| 0 <= k < needle@.len() ==> sub[k] == hay@[i + k]);
    }
    true
}

/// Whether `needle` occurs anywhere in `hay`, up to ASCII case.
pub fn contains_ci(hay: &Vec<char>, needle: &Vec<char>) -> (r: bool)
    ensures
        r == ci_contains(hay@, needle@),
{
    if needle.len() > hay.len() {
        assert(forall|i: int| !ci_match_at(hay@, needle@, i));
        return false;
    }
    if needle.len() == 0 {
        assert(ci_match_at(hay@, needle@, 0)) by {
            assert(hay@.subrange(0, 0) =~= needle@);
        }
        return true;
    }
    let h = hay.len();
    let last = h - needle.len();
    let mut i: usize = 0;
    while i <= last
        invariant
            i <= last + 1,
            h == hay@.len(),
            last == hay@.len() - needle@.len(),
            last < h,
            1 <= needle@.len() <= hay@.len(),
            forall|k: int| 0 <= k < i ==> !ci_match_at(hay@, needle@, k),
        decreases last + 1 - i,
    {
        if matches_at(hay, needle, i) {
            return true;
        }
        i += 1;
    }
    assert(forall|k: int| !ci_match_at(hay@, needle@, k));
    false
}

/// Whether `hay` ends with `needle`, up to ASCII case.
pub fn ends_with_ci(hay: &Vec<char>, needle: &Vec<char>) -> (r: bool)
    ensures
        r == ci_ends_with(hay@, needle@),
{
    if needle.len() > hay.len() {
        return false;
    }
    matches_at(hay, needle, hay.len() - needle.len())
}

/// Extend a character vector by another.
pub fn append_chars(a: &mut Vec<char>, b: &Vec<char>)
    ensures
        final(a)@ == old(a)@ + b@,
{
    let mut i: usize = 0;
    while i < b.len()
        invariant
            i <= b@.len(),
            a@ == old(a)@ + b@.subrange(0, i as int),
        decreases b@.len() - i,
    {
        a.push(b[i]);
        i += 1;
        assert(a@ =~= old(a)@ + b@.subrange(0, i as int));
    }
    assert(a@ =~= old(a)@ + b@);
}

/// Whether `a` starts with `b`, exactly.
pub fn starts_with_chars(a: &Vec<char>, b: &Vec<char>) -> (r: bool)
    ensures
        r == (b@.len() <= a@.len() && a@.subrange(0, b@.len() as int) == b@),
{
    if b.len() > a.len() {
        return false;
    }
    let mut i: usize = 0;
    while i < b.len()
        invariant
            i <= b@.len(),
            b@.len() <= a@.len(),
            forall|k: int| 0 <= k < i ==> a@[k] == b@[k],
        decreases b@.len() - i,
    {
        if a[i] != b[i] {
            proof {
                if a@.subrange(0, b@.len() as int) == b@ {
                    assert(a@.subrange(0, b@.len() as int)[i as int] == a@[i as int]);
                }
            }
            return false;
        }
        i += 1;
    }
    assert(a@.subrange(0, b@.len() as int) =~= b@);
    true
}

/// Whether two strings hold the same characters.
pub fn str_eq(a: &str, b: &str) -> (r: bool)
    ensures
        r == (a@ == b@),
{
    let av = chars_of(a);
    let bv = chars_of(b);
    chars_eq(&av, &bv)
}

/// Whether two character vectors hold the same characters.
pub fn chars_eq(a: &Vec<char>, b: &Vec<char>) -> (r: bool)
    ensures
        r == (a@ == b@),
{
    if a.len() != b.len() {
        return false;
    }
    let mut i: usize = 0;
    while i < a.len()
        invariant
            i <= a@.len(),
            a@.len() == b@.len(),
            forall|k: int| 0 <= k < i ==> a@[k] == b@[k],
        decreases a@.len() - i,
    {
        if a[i] != b[i] {
            return false;
        }
        i += 1;
    }
    assert(a@ =~= b@);
    true
}

} // verus!
