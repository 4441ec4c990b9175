//! Platform-aware asset selection: given the host operating system and
//! architecture, pick the best-matching release asset filename.

use vstd::prelude::*;
use crate::text::{chars_of, ci_contains, ci_ends_with, contains_ci, ends_with_ci};

verus! {

/// A host operating system the selector knows about.
#[derive(Debug, Clone, Copy, PartialEq, Eq, Structural)]
pub enum Os {
    Linux,
    Macos,
}

/// A host processor architecture the selector knows about.
#[derive(Debug, Clone, Copy, PartialEq, Eq, Structural)]
pub enum Arch {
    X8664,
    X86,
    Aarch64,
    Arm,
}

pub open spec fn tok_linux() -> Seq<char> { seq!['l', 'i', 'n', 'u', 'x'] }

pub open spec fn tok_apple() -> Seq<char> { seq!['a', 'p', 'p', 'l', 'e'] }

pub open spec fn tok_darwin() -> Seq<char> { seq!['d', 'a', 'r', 'w', 'i', 'n'] }

pub open spec fn tok_osx() -> Seq<char> { seq!['o', 's', 'x'] }

pub open spec fn tok_mac() -> Seq<char> { seq!['m', 'a', 'c'] }

pub open spec fn tok_amd64() -> Seq<char> { seq!['a', 'm', 'd', '6', '4'] }

pub open spec fn tok_x86_64() -> Seq<char> { seq!['x', '8', '6', '_', '6', '4'] }

pub open spec fn tok_x64() -> Seq<char> { seq!['x', '6', '4'] }

pub open spec fn tok_x86_dash_64() -> Seq<char> { seq!['x', '8', '6', '-', '6', '4'] }

pub open spec fn tok_arm64() -> Seq<char> { seq!['a', 'r', 'm', '6', '4'] }

pub open spec fn tok_aarch64() -> Seq<char> { seq!['a', 'a', 'r', 'c', 'h', '6', '4'] }

pub open spec fn tok_386() -> Seq<char> { seq!['3', '8', '6'] }

pub open spec fn tok_x86() -> Seq<char> { seq!['x', '8', '6'] }

pub open spec fn tok_i686() -> Seq<char> { seq!['i', '6', '8', '6'] }

pub open spec fn tok_arm() -> Seq<char> { seq!['a', 'r', 'm'] }

pub open spec fn tok_musl() -> Seq<char> { seq!['m', 'u', 's', 'l'] }

/// The filename names a Linux build.
pub open spec fn is_linux_name(s: Seq<char>) -> bool {
    ci_contains(s, tok_linux())
}

/// The filename names a macOS build.
pub open spec fn is_macos_name(s: Seq<char>) -> bool {
    ||| ci_contains(s, tok_apple())
    ||| ci_contains(s, tok_darwin())
    ||| ci_contains(s, tok_osx())
    ||| ci_contains(s, tok_mac())
}

/// The filename names an x86-64 build.
pub open spec fn is_x86_64_name(s: Seq<char>) -> bool {
    ||| ci_contains(s, tok_amd64())
    ||| ci_contains(s, tok_x86_64())
    ||| ci_contains(s, tok_x64())
    ||| ci_contains(s, tok_x86_dash_64())
}

/// The filename names a 64-bit ARM build.
pub open spec fn is_aarch64_name(s: Seq<char>) -> bool {
    ci_contains(s, tok_arm64()) || ci_contains(s, tok_aarch64())
}

/// The filename names a 32-bit x86 build: x86 tokens present and no
/// x86-64 token, so that `x86_64` is not mistaken for plain `x86`.
pub open spec fn is_x86_name(s: Seq<char>) -> bool {
    &&& !is_x86_64_name(s)
    &&& {
        ||| ci_contains(s, tok_386())
        ||| ci_contains(s, tok_x86())
        ||| ci_contains(s, tok_i686())
    }
}

/// The filename names a 32-bit ARM build: `arm` present and no 64-bit ARM
/// token, so that `arm64` is not mistaken for plain `arm`.
pub open spec fn is_arm_name(s: Seq<char>) -> bool {
    !is_aarch64_name(s) && ci_contains(s, tok_arm())
}

/// The filename names a musl build.
pub open spec fn is_musl_name(s: Seq<char>) -> bool {
    ci_contains(s, tok_musl())
}

pub open spec fn ext_sig() -> Seq<char> { seq!['.', 's', 'i', 'g'] }

pub open spec fn ext_deb() -> Seq<char> { seq!['.', 'd', 'e', 'b'] }

pub open spec fn ext_rpm() -> Seq<char> { seq!['.', 'r', 'p', 'm'] }

pub open spec fn ext_dmg() -> Seq<char> { seq!['.', 'd', 'm', 'g'] }

pub open spec fn ext_apk() -> Seq<char> { seq!['.', 'a', 'p', 'k'] }

pub open spec fn ext_msi() -> Seq<char> { seq!['.', 'm', 's', 'i'] }

pub open spec fn ext_sbom() -> Seq<char> { seq!['.', 's', 'b', 'o', 'm'] }

pub open spec fn ext_checksum() -> Seq<char> { seq!['.', 'c', 'h', 'e', 'c', 'k', 's', 'u', 'm'] }

pub open spec fn ext_sha256sum() -> Seq<char> {
    seq!['.', 's', 'h', 'a', '2', '5', '6', 's', 'u', 'm']
}

/// The filename carries an extension that is never an installable binary
/// (signatures, OS packages, checksums and the like).
pub open spec fn denied_name(s: Seq<char>) -> bool {
    ||| ci_ends_with(s, ext_sig())
    ||| ci_ends_with(s, ext_deb())
    ||| ci_ends_with(s, ext_rpm())
    ||| ci_ends_with(s, ext_dmg())
    ||| ci_ends_with(s, ext_apk())
    ||| ci_ends_with(s, ext_msi())
    ||| ci_ends_with(s, ext_sbom())
    ||| ci_ends_with(s, ext_checksum())
    ||| ci_ends_with(s, ext_sha256sum())
}

/// The filename matches the host operating system.
pub open spec fn os_matches(os: Os, s: Seq<char>) -> bool {
    match os {
        Os::Linux => is_linux_name(s),
        Os::Macos => is_macos_name(s),
    }
}

/// The filename matches the host architecture. 64-bit ARM hosts also accept
/// macOS x86-64 assets, which they can run under emulation.
pub open spec fn arch_matches(arch: Arch, s: Seq<char>) -> bool {
    match arch {
        Arch::X8664 => is_x86_64_name(s),
        Arch::X86 => is_x86_name(s),
        Arch::Aarch64 => is_aarch64_name(s) || (is_macos_name(s) && is_x86_64_name(s)),
        Arch::Arm => is_arm_name(s),
    }
}

/// The filename survives all three filters: OS, architecture, extension.
pub open spec fn passes(os: Os, arch: Arch, s: Seq<char>) -> bool {
    os_matches(os, s) && arch_matches(arch, s) && !denied_name(s)
}

/// Tie-break score of a filename: musl builds beat non-musl builds, and
/// among those, 64-bit ARM naming wins.
pub open spec fn priority_of(s: Seq<char>) -> int {
    (if is_musl_name(s) { 2int } else { 0int }) + (if is_aarch64_name(s) { 1int } else { 0int })
}

fn linux_chars(cs: &Vec<char>) -> (r: bool)
    ensures
        r == is_linux_name(cs@),
{
    let t: Vec<char> = vec!['l', 'i', 'n', 'u', 'x'];
    assert(t@ =~= tok_linux());
    contains_ci(cs, &t)
}

fn macos_chars(cs: &Vec<char>) -> (r: bool)
    ensures
        r == is_macos_name(cs@),
{
    let t1: Vec<char> = vec!['a', 'p', 'p', 'l', 'e'];
    assert(t1@ =~= tok_apple());
    if contains_ci(cs, &t1) {
        return true;
    }
    let t2: Vec<char> = vec!['d', 'a', 'r', 'w', 'i', 'n'];
    assert(t2@ =~= tok_darwin());
    if contains_ci(cs, &t2) {
        return true;
    }
    let t3: Vec<char> = vec!['o', 's', 'x'];
    assert(t3@ =~= tok_osx());
    if contains_ci(cs, &t3) {
        return true;
    }
    let t4: Vec<char> = vec!['m', 'a', 'c'];
    assert(t4@ =~= tok_mac());
    contains_ci(cs, &t4)
}

fn x86_64_chars(cs: &Vec<char>) -> (r: bool)
    ensures
        r == is_x86_64_name(cs@),
{
    let t1: Vec<char> = vec!['a', 'm', 'd', '6', '4'];
    assert(t1@ =~= tok_amd64());
    if contains_ci(cs, &t1) {
        return true;
    }
    let t2: Vec<char> = vec!['x', '8', '6', '_', '6', '4'];
    assert(t2@ =~= tok_x86_64());
    if contains_ci(cs, &t2) {
        return true;
    }
    let t3: Vec<char> = vec!['x', '6', '4'];
    assert(t3@ =~= tok_x64());
    if contains_ci(cs, &t3) {
        return true;
    }
    let t4: Vec<char> = vec!['x', '8', '6', '-', '6', '4'];
    assert(t4@ =~= tok_x86_dash_64());
    contains_ci(cs, &t4)
}

fn aarch64_chars(cs: &Vec<char>) -> (r: bool)
    ensures
        r == is_aarch64_name(cs@),
{
    let t1: Vec<char> = vec!['a', 'r', 'm', '6', '4'];
    assert(t1@ =~= tok_arm64());
    if contains_ci(cs, &t1) {
        return true;
    }
    let t2: Vec<char> = vec!['a', 'a', 'r', 'c', 'h', '6', '4'];
    assert(t2@ =~= tok_aarch64());
    contains_ci(cs, &t2)
}

fn x86_chars(cs: &Vec<char>) -> (r: bool)
    ensures
        r == is_x86_name(cs@),
{
    if x86_64_chars(cs) {
        return false;
    }
    let t1: Vec<char> = vec!['3', '8', '6'];
    assert(t1@ =~= tok_386());
    if contains_ci(cs, &t1) {
        return true;
    }
    let t2: Vec<char> = vec!['x', '8', '6'];
    assert(t2@ =~= tok_x86());
    if contains_ci(cs, &t2) {
        return true;
    }
    let t3: Vec<char> = vec!['i', '6', '8', '6'];
    assert(t3@ =~= tok_i686());
    contains_ci(cs, &t3)
}

fn arm_chars(cs: &Vec<char>) -> (r: bool)
    ensures
        r == is_arm_name(cs@),
{
    if aarch64_chars(cs) {
        return false;
    }
    let t: Vec<char> = vec!['a', 'r', 'm'];
    assert(t@ =~= tok_arm());
    contains_ci(cs, &t)
}

fn musl_chars(cs: &Vec<char>) -> (r: bool)
    ensures
        r == is_musl_name(cs@),
{
    let t: Vec<char> = vec!['m', 'u', 's', 'l'];
    assert(t@ =~= tok_musl());
    contains_ci(cs, &t)
}

fn denied_chars(cs: &Vec<char>) -> (r: bool)
    ensures
        r == denied_name(cs@),
{
    let e1: Vec<char> = vec!['.', 's', 'i', 'g'];
    assert(e1@ =~= ext_sig());
    if ends_with_ci(cs, &e1) {
        return true;
    }
    let e2: Vec<char> = vec!['.', 'd', 'e', 'b'];
    assert(e2@ =~= ext_deb());
    if ends_with_ci(cs, &e2) {
        return true;
    }
    let e3: Vec<char> = vec!['.', 'r', 'p', 'm'];
    assert(e3@ =~= ext_rpm());
    if ends_with_ci(cs, &e3) {
        return true;
    }
    let e4: Vec<char> = vec!['.', 'd', 'm', 'g'];
    assert(e4@ =~= ext_dmg());
    if ends_with_ci(cs, &e4) {
        return true;
    }
    let e5: Vec<char> = vec!['.', 'a', 'p', 'k'];
    assert(e5@ =~= ext_apk());
    if ends_with_ci(cs, &e5) {
        return true;
    }
    let e6: Vec<char> = vec!['.', 'm', 's', 'i'];
    assert(e6@ =~= ext_msi());
    if ends_with_ci(cs, &e6) {
        return true;
    }
    let e7: Vec<char> = vec!['.', 's', 'b', 'o', 'm'];
    assert(e7@ =~= ext_sbom());
    if ends_with_ci(cs, &e7) {
        return true;
    }
    let e8: Vec<char> = vec!['.', 'c', 'h', 'e', 'c', 'k', 's', 'u', 'm'];
    assert(e8@ =~= ext_checksum());
    if ends_with_ci(cs, &e8) {
        return true;
    }
    let e9: Vec<char> = vec!['.', 's', 'h', 'a', '2', '5', '6', 's', 'u', 'm'];
    assert(e9@ =~= ext_sha256sum());
    ends_with_ci(cs, &e9)
}

/// Whether the filename names a Linux build.
pub fn is_linux(filename: &str) -> (r: bool)
    ensures
        r == is_linux_name(filename@),
{
    let cs = chars_of(filename);
    linux_chars(&cs)
}

/// Whether the filename names a macOS build.
pub fn is_macos(filename: &str) -> (r: bool)
    ensures
        r == is_macos_name(filename@),
{
    let cs = chars_of(filename);
    macos_chars(&cs)
}

/// Whether the filename names an x86-64 build.
pub fn is_x86_64(filename: &str) -> (r: bool)
    ensures
        r == is_x86_64_name(filename@),
{
    let cs = chars_of(filename);
    x86_64_chars(&cs)
}

/// Whether the filename names a 64-bit ARM build.
pub fn is_aarch64(filename: &str) -> (r: bool)
    ensures
        r == is_aarch64_name(filename@),
{
    let cs = chars_of(filename);
    aarch64_chars(&cs)
}

/// Whether the filename names a 32-bit x86 build.
pub fn is_x86(filename: &str) -> (r: bool)
    ensures
        r == is_x86_name(filename@),
{
    let cs = chars_of(filename);
    x86_chars(&cs)
}

/// Whether the filename names a 32-bit ARM build.
pub fn is_arm(filename: &str) -> (r: bool)
    ensures
        r == is_arm_name(filename@),
{
    let cs = chars_of(filename);
    arm_chars(&cs)
}

/// Whether the filename names a musl build.
pub fn is_musl(filename: &str) -> (r: bool)
    ensures
        r == is_musl_name(filename@),
{
    let cs = chars_of(filename);
    musl_chars(&cs)
}

/// Tie-break score of a filename.
pub fn priority(filename: &str) -> (r: u8)
    ensures
        r == priority_of(filename@),
{
    let cs = chars_of(filename);
    let mut p: u8 = 0;
    if musl_chars(&cs) {
        p += 2;
    }
    if aarch64_chars(&cs) {
        p += 1;
    }
    p
}

/// The indices of the filenames in `names` that pass every filter for the
/// given platform, below index `n`, in order.
pub open spec fn passing_upto(names: Seq<Seq<char>>, os: Os, arch: Arch, n: int) -> Seq<usize>
    decreases n,
{
    if n <= 0 {
        Seq::empty()
    } else {
        let p = passing_upto(names, os, arch, n - 1);
        if passes(os, arch, names[n - 1]) {
            p.push((n - 1) as usize)
        } else {
            p
        }
    }
}

/// The result of running the selector: the chosen index into the candidate
/// list, and every index that passed the filters, in order.
pub struct Selection {
    /// The index of the chosen asset.
    pub index: usize,
    /// All passing indices, in candidate order; more than one means the
    /// caller should warn about the tie.
    pub matches: Vec<usize>,
}

/// Run the selector over the candidate filenames. Returns `None` when no
/// filename passes the filters; otherwise the chosen index is the first
/// candidate of maximal priority among those that passed.
pub fn filter_assets(os: Os, arch: Arch, names: &Vec<String>) -> (r: Option<Selection>)
    ensures
        match r {
            None => forall|k: int| 0 <= k < names@.len() ==> !passes(os, arch, names@[k]@),
            Some(sel) => {
                &&& sel.matches@ == passing_upto(
                    names@.map_values(|s: String| s@),
                    os,
                    arch,
                    names@.len() as int,
                )
                &&& sel.index < names@.len()
                &&& passes(os, arch, names@[sel.index as int]@)
                &&& forall|k: int|
                    0 <= k < names@.len() && passes(os, arch, names@[k]@) ==> priority_of(
                        names@[k]@,
                    ) <= priority_of(names@[sel.index as int]@)
                &&& forall|k: int|
                    0 <= k < sel.index && passes(os, arch, names@[k]@) ==> priority_of(names@[k]@)
                        < priority_of(names@[sel.index as int]@)
            },
        },
{
    let ghost nm = names@.map_values(|s: String| s@);
    let mut matches: Vec<usize> = Vec::new();
    let mut best: usize = 0;
    let mut best_pri: u8 = 0;
    let mut have_best: bool = false;
    let mut i: usize = 0;
    while i < names.len()
        invariant
            i <= names@.len(),
            nm == names@.map_values(|s: String| s@),
            matches@ == passing_upto(nm, os, arch, i as int),
            !have_best ==> forall|k: int| 0 <= k < i ==> !passes(os, arch, names@[k]@),
            have_best ==> {
                &&& best < i
                &&& passes(os, arch, names@[best as int]@)
                &&& best_pri == priority_of(names@[best as int]@)
                &&& forall|k: int|
                    0 <= k < i && passes(os, arch, names@[k]@) ==> priority_of(names@[k]@)
                        <= best_pri
                &&& forall|k: int|
                    0 <= k < best && passes(os, arch, names@[k]@) ==> priority_of(names@[k]@)
                        < best_pri
            },
        decreases names@.len() - i,
    {
        assert(nm[i as int] == names@[i as int]@);
        let cs = chars_of(&names[i]);
        let os_ok = match os {
            Os::Linux => linux_chars(&cs),
            Os::Macos => macos_chars(&cs),
        };
        let arch_ok = match arch {
            Arch::X8664 => x86_64_chars(&cs),
            Arch::X86 => x86_chars(&cs),
            Arch::Aarch64 => {
                if aarch64_chars(&cs) {
                    true
                } else {
                    macos_chars(&cs) && x86_64_chars(&cs)
                }
            },
            Arch::Arm => arm_chars(&cs),
        };
        if os_ok && arch_ok && !denied_chars(&cs) {
            matches.push(i);
            let mut p: u8 = 0;
            if musl_chars(&cs) {
                p += 2;
            }
            if aarch64_chars(&cs) {
                p += 1;
            }
            assert(p == priority_of(names@[i as int]@));
            if !have_best || p > best_pri {
                best = i;
                best_pri = p;
                have_best = true;
            }
        }
        i += 1;
    }
    if have_best {
        Some(Selection { index: best, matches })
    } else {
        None
    }
}

} // verus!
