//! Snapshot and restore the set of globally installed build-tool packages.
//!
//! The crate's core is a reconciliation engine that compares a desired
//! package set against the installed set and computes a minimal
//! install/update/remove plan, plus the pure logic of the remote
//! synchronization protocol: an OAuth device-authorization state machine
//! and a gist-like remote document client. All I/O (files, keyring,
//! HTTP) lives outside this crate; the functions here compute plans,
//! requests and state transitions from plain values.

use vstd::prelude::*;

pub mod codec;
pub mod device;
pub mod commands;
pub mod reconcile;
pub mod strutil;
pub mod sync;
pub mod url;
pub mod version;

use crate::strutil::{find_char, find_char_from, has_substring, contains_sub, str_to_chars,
    chars_to_string, strs_view};
use crate::version::{Version, VersionView, spec_parse_version, parse_version_chars};

verus! {

/// One installed or desired package: its name, the feature flags it is
/// built with, and its version. A set of packages holds at most one entry
/// per name.
#[derive(Debug, PartialEq, Eq, Clone)]
pub struct Package {
    pub name: String,
    pub features: Vec<String>,
    pub all_features: bool,
    pub no_default_features: bool,
    pub version: Version,
}

/// The mathematical value of a `Package`.
pub ghost struct PackageView {
    pub name: Seq<char>,
    pub features: Seq<Seq<char>>,
    pub all_features: bool,
    pub no_default_features: bool,
    pub version: VersionView,
}

impl View for Package {
    type V = PackageView;

    open spec fn view(&self) -> PackageView {
        PackageView {
            name: self.name@,
            features: strs_view(self.features@),
            all_features: self.all_features,
            no_default_features: self.no_default_features,
            version: self.version@,
        }
    }
}

/// The views of a sequence of packages.
pub open spec fn views(s: Seq<Package>) -> Seq<PackageView> {
    s.map_values(|p: Package| p@)
}

/// Some package in `s` is named `n`.
pub open spec fn has_name(s: Seq<PackageView>, n: Seq<char>) -> bool {
    exists|i: int| 0 <= i < s.len() && (#[trigger] s[i]).name == n
}

/// No two packages in `s` share a name.
pub open spec fn unique_names(s: Seq<PackageView>) -> bool {
    forall|i: int, j: int| 0 <= i < j < s.len() ==> (#[trigger] s[i]).name != (#[trigger] s[j]).name
}

impl Package {
    /// A copy of the package record with the same value.
    pub fn duplicate(&self) -> (r: Package)
        ensures
            r@ == self@,
    {
        let mut features: Vec<String> = Vec::new();
        let mut i: usize = 0;
        while i < self.features.len()
            invariant
                0 <= i <= self.features@.len(),
                features@.len() == i,
                strs_view(features@) == strs_view(self.features@).take(i as int),
            decreases self.features@.len() - i,
        {
            features.push(self.features[i].clone());
            i = i + 1;
            proof {
                assert(strs_view(features@) =~= strs_view(self.features@).take(i as int));
            }
        }
        proof {
            assert(strs_view(features@) =~= strs_view(self.features@));
        }
        let r = Package {
            name: self.name.clone(),
            features,
            all_features: self.all_features,
            no_default_features: self.no_default_features,
            version: self.version.duplicate(),
        };
        r
    }
}

/// The marker in a ledger source-spec that names a locally built package.
pub open spec fn local_marker() -> Seq<char> {
    "path+file://"@
}

/// What a ledger line `"<name> <version> <source-spec>"` means: the name
/// (everything before the first space), the parsed version between the
/// first two spaces, and whether the source-spec marks a locally built
/// package that backup and reconciliation must skip. `None` when the line
/// has fewer than three space-separated parts or the version does not
/// parse.
pub open spec fn spec_slice_info(s: Seq<char>) -> Option<(Seq<char>, VersionView, bool)> {
    let i = find_char(s, ' ', 0);
    if i == s.len() {
        None
    } else {
        let j = find_char(s, ' ', i + 1);
        if j == s.len() {
            None
        } else {
            match spec_parse_version(s.subrange(i + 1, j)) {
                None => None,
                Some(v) => Some(
                    (s.subrange(0, i), v, has_substring(s.subrange(j + 1, s.len() as int),
                    local_marker())),
                ),
            }
        }
    }
}

/// Splits a ledger line into package name, version and the locally-built
/// marker. `None` when the line is not of the ledger's form.
pub fn slice_info(package_str: &str) -> (r: Option<(String, Version, bool)>)
    ensures
        match r {
            Some(t) => spec_slice_info(package_str@) == Some((t.0@, t.1@, t.2)),
            None => spec_slice_info(package_str@) is None,
        },
{
    let chars = str_to_chars(package_str);
    let ghost s = package_str@;
    let i = find_char_from(&chars, ' ', 0);
    proof {
        crate::strutil::lemma_find_char(s, ' ', 0);
    }
    if i == chars.len() {
        return None;
    }
    let j = find_char_from(&chars, ' ', i + 1);
    proof {
        crate::strutil::lemma_find_char(s, ' ', i + 1);
    }
    if j == chars.len() {
        return None;
    }
    let mut ver_chars: Vec<char> = Vec::new();
    let mut k: usize = i + 1;
    while k < j
        invariant
            i + 1 <= k <= j <= s.len(),
            chars@ == s,
            ver_chars@ == s.subrange(i + 1, k as int),
        decreases j - k,
    {
        ver_chars.push(chars[k]);
        k = k + 1;
        proof {
            assert(ver_chars@ =~= s.subrange(i + 1, k as int));
        }
    }
    let version = match parse_version_chars(&ver_chars) {
        None => {
            return None;
        },
        Some(v) => v,
    };
    let mut name_chars: Vec<char> = Vec::new();
    let mut k: usize = 0;
    while k < i
        invariant
            0 <= k <= i <= s.len(),
            chars@ == s,
            name_chars@ == s.subrange(0, k as int),
        decreases i - k,
    {
        name_chars.push(chars[k]);
        k = k + 1;
        proof {
            assert(name_chars@ =~= s.subrange(0, k as int));
        }
    }
    let mut rest_chars: Vec<char> = Vec::new();
    let mut k: usize = j + 1;
    while k < chars.len()
        invariant
            j + 1 <= k <= s.len(),
            chars@ == s,
            rest_chars@ == s.subrange(j + 1, k as int),
        decreases s.len() - k,
    {
        rest_chars.push(chars[k]);
        k = k + 1;
        proof {
            assert(rest_chars@ =~= s.subrange(j + 1, k as int));
        }
    }
    proof {
        assert(rest_chars@ =~= s.subrange(j + 1, s.len() as int));
    }
    let skip = contains_sub(&rest_chars, "path+file://");
    let name = chars_to_string(&name_chars);
    Some((name, version, skip))
}

/// One entry of the package manager's installed-package ledger, already
/// split into its raw line and per-install feature metadata.
pub struct LedgerEntry {
    pub id: String,
    pub features: Vec<String>,
    pub all_features: bool,
    pub no_default_features: bool,
}

/// The mathematical value of a `LedgerEntry`.
pub ghost struct LedgerEntryView {
    pub id: Seq<char>,
    pub features: Seq<Seq<char>>,
    pub all_features: bool,
    pub no_default_features: bool,
}

impl View for LedgerEntry {
    type V = LedgerEntryView;

    open spec fn view(&self) -> LedgerEntryView {
        LedgerEntryView {
            id: self.id@,
            features: strs_view(self.features@),
            all_features: self.all_features,
            no_default_features: self.no_default_features,
        }
    }
}

/// The views of a sequence of ledger entries.
pub open spec fn entry_views(s: Seq<LedgerEntry>) -> Seq<LedgerEntryView> {
    s.map_values(|e: LedgerEntry| e@)
}

/// The package an entry normalizes to: `None` for a malformed line or a
/// locally built package, which the inventory skips.
pub open spec fn entry_to_package(e: LedgerEntryView) -> Option<PackageView> {
    match spec_slice_info(e.id) {
        None => None,
        Some(t) => if t.2 {
            None
        } else {
            Some(
                PackageView {
                    name: t.0,
                    features: e.features,
                    all_features: e.all_features,
                    no_default_features: e.no_default_features,
                    version: t.1,
                },
            )
        },
    }
}

/// The package set the whole ledger normalizes to, in entry order.
pub open spec fn normalized_packages(evs: Seq<LedgerEntryView>) -> Seq<PackageView> {
    evs.filter_map(|e: LedgerEntryView| entry_to_package(e))
}

/// Taking one more entry extends the normalized set by that entry's
/// package, when it has one.
proof fn lemma_normalized_take_succ(evs: Seq<LedgerEntryView>, i: int)
    requires
        0 <= i < evs.len(),
    ensures
        normalized_packages(evs.take(i + 1)) == normalized_packages(evs.take(i)) + match entry_to_package(evs[i]) {
            Some(p) => seq![p],
            None => Seq::<PackageView>::empty(),
        },
{
    evs.lemma_filter_map_take_succ(|e: LedgerEntryView| entry_to_package(e), i);
}

/// Normalizes the ledger into the installed package set, in entry order:
/// malformed lines and locally built packages are skipped.
pub fn packages_from_entries(entries: &Vec<LedgerEntry>) -> (r: Vec<Package>)
    ensures
        views(r@) == normalized_packages(entry_views(entries@)),
{
    let ghost evs = entry_views(entries@);
    let mut r: Vec<Package> = Vec::new();
    let mut i: usize = 0;
    proof {
        assert(normalized_packages(evs.take(0)) =~= Seq::<PackageView>::empty());
        assert(views(r@) =~= normalized_packages(evs.take(0)));
    }
    while i < entries.len()
        invariant
            0 <= i <= entries@.len(),
            evs == entry_views(entries@),
            evs.len() == entries@.len(),
            views(r@) == normalized_packages(evs.take(i as int)),
        decreases entries@.len() - i,
    {
        let entry = &entries[i];
        proof {
            assert(evs[i as int] == entry@);
        }
        match slice_info(entry.id.as_str()) {
            None => {
                proof {
                    lemma_normalized_take_succ(evs, i as int);
                    assert(entry_to_package(evs[i as int]) is None);
                    assert(normalized_packages(evs.take(i + 1)) =~= normalized_packages(
                        evs.take(i as int),
                    ));
                }
            },
            Some((name, version, skip)) => {
                if skip {
                    proof {
                        lemma_normalized_take_succ(evs, i as int);
                        assert(entry_to_package(evs[i as int]) is None);
                        assert(normalized_packages(evs.take(i + 1)) =~= normalized_packages(
                            evs.take(i as int),
                        ));
                    }
                } else {
                    let mut features: Vec<String> = Vec::new();
                    let mut k: usize = 0;
                    while k < entry.features.len()
                        invariant
                            0 <= k <= entry.features@.len(),
                            features@.len() == k,
                            strs_view(features@) == strs_view(entry.features@).take(k as int),
                        decreases entry.features@.len() - k,
                    {
                        features.push(entry.features[k].clone());
                        k = k + 1;
                        proof {
                            assert(strs_view(features@) =~= strs_view(entry.features@).take(
                                k as int,
                            ));
                        }
                    }
                    proof {
                        assert(strs_view(features@) =~= strs_view(entry.features@));
                    }
                    let p = Package {
                        name,
                        features,
                        all_features: entry.all_features,
                        no_default_features: entry.no_default_features,
                        version,
                    };
                    let ghost old_r = r@;
                    r.push(p);
                    proof {
                        lemma_normalized_take_succ(evs, i as int);
                        assert(entry_to_package(evs[i as int]) == Some(p@));
                        assert(views(r@) =~= views(old_r).push(p@));
                        assert(normalized_packages(evs.take(i + 1)) =~= normalized_packages(
                            evs.take(i as int),
                        ).push(p@));
                        assert(views(r@) =~= normalized_packages(evs.take(i + 1)));
                    }
                }
            },
        }
        i = i + 1;
    }
    proof {
        assert(evs.take(evs.len() as int) =~= evs);
    }
    r
}

} // verus!
