//! The backup format: a JSON array of package records
//! `{"name", "features", "all_features", "no_default_features", "version"}`.
//! The writer emits the compact form; the reader takes insignificant
//! whitespace between tokens and the standard string escapes, so a
//! pretty-printed file reads back too. Serializing a package set and
//! parsing the result yields an equal set, proved below for every
//! representable set.

use vstd::prelude::*;

use crate::{Package, PackageView, views};
use crate::strutil::{spec_join, lemma_join_front, lemma_slice_parts, chars_to_string,
    push_str_chars, str_to_chars, strs_view};
use crate::version::{Version, VersionView, version_chars, version_to_chars, version_wf,
    spec_parse_version_at, parse_version_at, lemma_version_chars_parse, is_ident_char};

verus! {

/// How one character is written inside a quoted string: a backslash or a
/// quote gets a backslash before it, every other character stands as is.
pub open spec fn esc_char(c: char) -> Seq<char> {
    if c == '\\' {
        seq!['\\', '\\']
    } else if c == '"' {
        seq!['\\', '"']
    } else {
        seq![c]
    }
}

/// A string's characters in escaped form.
pub open spec fn esc(s: Seq<char>) -> Seq<char>
    decreases s.len(),
{
    if s.len() == 0 {
        Seq::empty()
    } else {
        esc_char(s[0]) + esc(s.drop_first())
    }
}

/// Escaping distributes over concatenation.
pub proof fn lemma_esc_app(a: Seq<char>, b: Seq<char>)
    ensures
        esc(a + b) == esc(a) + esc(b),
    decreases a.len(),
{
    if a.len() == 0 {
        assert(a + b =~= b);
        assert(esc(a) + esc(b) =~= esc(b));
    } else {
        lemma_esc_app(a.drop_first(), b);
        assert((a + b).drop_first() =~= a.drop_first() + b);
        assert((a + b)[0] == a[0]);
        assert(esc(a + b) =~= esc(a) + esc(b));
    }
}

/// A quoted string value: `"` + escaped characters + `"`.
pub open spec fn ser_string(s: Seq<char>) -> Seq<char> {
    seq!['"'] + esc(s) + seq!['"']
}

/// A boolean value: `true` or `false`.
pub open spec fn ser_bool(b: bool) -> Seq<char> {
    if b {
        "true"@
    } else {
        "false"@
    }
}

/// The quoted forms of a run of strings.
pub open spec fn ser_string_items(items: Seq<Seq<char>>) -> Seq<Seq<char>> {
    items.map_values(|s: Seq<char>| ser_string(s))
}

/// An array of string values: the quoted items joined with commas inside
/// brackets.
pub open spec fn ser_str_array(items: Seq<Seq<char>>) -> Seq<char> {
    seq!['['] + spec_join(ser_string_items(items), seq![',']) + seq![']']
}

/// One package record, its five fields in fixed order, written compactly.
#[verifier::opaque]
pub open spec fn ser_package(p: PackageView) -> Seq<char> {
    seq!['{'] + "\"name\""@ + seq![':'] + ser_string(p.name) + seq![','] + "\"features\""@
        + seq![':'] + ser_str_array(p.features) + seq![','] + "\"all_features\""@ + seq![':']
        + ser_bool(p.all_features) + seq![','] + "\"no_default_features\""@ + seq![':'] + ser_bool(
        p.no_default_features,
    ) + seq![','] + "\"version\""@ + seq![':'] + seq!['"'] + version_chars(p.version) + seq!['"']
        + seq!['}']
}

/// The serialized forms of a run of packages.
pub open spec fn ser_package_items(ps: Seq<PackageView>) -> Seq<Seq<char>> {
    ps.map_values(|p: PackageView| ser_package(p))
}

/// Every version in the set is well-formed: exactly the sets the backup
/// format can carry.
pub open spec fn packages_wf(ps: Seq<PackageView>) -> bool {
    forall|i: int| 0 <= i < ps.len() ==> version_wf((#[trigger] ps[i]).version)
}

/// A package set in the backup format: the records joined with commas
/// inside brackets.
pub open spec fn ser_packages(ps: Seq<PackageView>) -> Seq<char> {
    seq!['['] + spec_join(ser_package_items(ps), seq![',']) + seq![']']
}

/// The position after `lit` when it stands at `pos` in `s`, else `None`.
pub open spec fn expect(s: Seq<char>, pos: int, lit: Seq<char>) -> Option<int> {
    if 0 <= pos && pos + lit.len() <= s.len() && s.subrange(pos, pos + lit.len() as int) == lit {
        Some(pos + lit.len() as int)
    } else {
        None
    }
}

/// Insignificant whitespace between the format's tokens.
pub open spec fn is_ws(c: char) -> bool {
    c == ' ' || c == '\t' || c == '\n' || c == '\r'
}

/// The first position at or after `pos` holding a non-whitespace
/// character (or the end).
pub open spec fn ws_end(s: Seq<char>, pos: int) -> int
    decreases s.len() - pos,
{
    if 0 <= pos < s.len() && is_ws(s[pos]) {
        ws_end(s, pos + 1)
    } else {
        pos
    }
}

/// `ws_end` stays within bounds and lands on the first non-whitespace.
pub proof fn lemma_ws_end(s: Seq<char>, pos: int)
    requires
        0 <= pos <= s.len(),
    ensures
        pos <= ws_end(s, pos) <= s.len(),
        ws_end(s, pos) == s.len() || !is_ws(s[ws_end(s, pos)]),
    decreases s.len() - pos,
{
    if pos < s.len() && is_ws(s[pos]) {
        lemma_ws_end(s, pos + 1);
    }
}

/// What a short escape after the backslash stands for: the two forms the
/// writer emits, and the solidus and control-character escapes of the
/// standard form.
pub open spec fn esc_code(c: char) -> Option<char> {
    if c == '"' {
        Some('"')
    } else if c == '\\' {
        Some('\\')
    } else if c == '/' {
        Some('/')
    } else if c == 'b' {
        Some('\u{0008}')
    } else if c == 'f' {
        Some('\u{000C}')
    } else if c == 'n' {
        Some('\n')
    } else if c == 'r' {
        Some('\r')
    } else if c == 't' {
        Some('\t')
    } else {
        None
    }
}

/// The value of a hexadecimal digit character.
pub open spec fn hex_val(c: char) -> Option<int> {
    match crate::version::digit_of(c) {
        Some(d) => Some(d),
        None => if c == 'a' || c == 'A' {
            Some(10int)
        } else if c == 'b' || c == 'B' {
            Some(11int)
        } else if c == 'c' || c == 'C' {
            Some(12int)
        } else if c == 'd' || c == 'D' {
            Some(13int)
        } else if c == 'e' || c == 'E' {
            Some(14int)
        } else if c == 'f' || c == 'F' {
            Some(15int)
        } else {
            None
        },
    }
}

/// The value of the four hexadecimal digits at `pos`, if they are there.
pub open spec fn hex4_at(s: Seq<char>, pos: int) -> Option<int> {
    if 0 <= pos && pos + 4 <= s.len() {
        match (hex_val(s[pos]), hex_val(s[pos + 1]), hex_val(s[pos + 2]), hex_val(s[pos + 3])) {
            (Some(a), Some(b), Some(c), Some(d)) => Some(a * 4096 + b * 256 + c * 16 + d),
            _ => None,
        }
    } else {
        None
    }
}

/// A code point a `char` can hold: in range and not a surrogate.
pub open spec fn valid_scalar(v: int) -> bool {
    (0 <= v < 0xD800) || (0xDFFF < v <= 0x10FFFF)
}

/// Parses the rest of a quoted string after the opening quote: the
/// unescaped characters and the position after the closing quote. A
/// backslash introduces one of the standard escapes; a `\u` escape must
/// name a non-surrogate code point.
pub open spec fn p_string_body(s: Seq<char>, pos: int) -> Option<(Seq<char>, int)>
    decreases s.len() - pos,
    when 0 <= pos <= s.len()
{
    if pos >= s.len() {
        None
    } else if s[pos] == '"' {
        Some((Seq::empty(), pos + 1))
    } else if s[pos] == '\\' {
        if pos + 1 < s.len() {
            if s[pos + 1] == 'u' {
                match hex4_at(s, pos + 2) {
                    Some(v) => if valid_scalar(v) {
                        match p_string_body(s, pos + 6) {
                            None => None,
                            Some((t, e)) => Some((seq![v as char] + t, e)),
                        }
                    } else {
                        None
                    },
                    None => None,
                }
            } else {
                match esc_code(s[pos + 1]) {
                    None => None,
                    Some(d) => match p_string_body(s, pos + 2) {
                        None => None,
                        Some((t, e)) => Some((seq![d] + t, e)),
                    },
                }
            }
        } else {
            None
        }
    } else {
        match p_string_body(s, pos + 1) {
            None => None,
            Some((t, e)) => Some((seq![s[pos]] + t, e)),
        }
    }
}

/// Parses a quoted string value at `pos`, after any whitespace.
pub open spec fn p_string(s: Seq<char>, pos: int) -> Option<(Seq<char>, int)> {
    let q = ws_end(s, pos);
    if 0 <= q < s.len() && s[q] == '"' {
        p_string_body(s, q + 1)
    } else {
        None
    }
}

/// A parsed string body ends after its opening position and within `s`.
pub proof fn lemma_p_string_body_bounds(s: Seq<char>, pos: int)
    requires
        0 <= pos <= s.len(),
    ensures
        match p_string_body(s, pos) {
            Some(t) => pos < t.1 <= s.len(),
            None => true,
        },
    decreases s.len() - pos,
{
    if pos < s.len() {
        if s[pos] == '"' {
        } else if s[pos] == '\\' {
            if pos + 1 < s.len() {
                if s[pos + 1] == 'u' {
                    if hex4_at(s, pos + 2) is Some {
                        lemma_p_string_body_bounds(s, pos + 6);
                    }
                } else {
                    lemma_p_string_body_bounds(s, pos + 2);
                }
            }
        } else {
            lemma_p_string_body_bounds(s, pos + 1);
        }
    }
}

/// A parsed string value ends after its opening position and within `s`.
pub proof fn lemma_p_string_bounds(s: Seq<char>, pos: int)
    requires
        0 <= pos <= s.len(),
    ensures
        match p_string(s, pos) {
            Some(t) => pos < t.1 <= s.len(),
            None => true,
        },
{
    lemma_ws_end(s, pos);
    let q = ws_end(s, pos);
    if 0 <= q < s.len() && s[q] == '"' {
        lemma_p_string_body_bounds(s, q + 1);
    }
}

/// Parses a boolean value at `pos`, after any whitespace.
pub open spec fn p_bool(s: Seq<char>, pos: int) -> Option<(bool, int)> {
    let q = ws_end(s, pos);
    match expect(s, q, "true"@) {
        Some(e) => Some((true, e)),
        None => match expect(s, q, "false"@) {
            Some(e) => Some((false, e)),
            None => None,
        },
    }
}

/// Parses a quoted version value at `pos`, after any whitespace.
pub open spec fn p_version(s: Seq<char>, pos: int) -> Option<(VersionView, int)> {
    let q = ws_end(s, pos);
    if 0 <= q < s.len() && s[q] == '"' {
        match spec_parse_version_at(s, q + 1) {
            None => None,
            Some((v, e)) => if e < s.len() && s[e] == '"' {
                Some((v, e + 1))
            } else {
                None
            },
        }
    } else {
        None
    }
}

/// Parses the items of a nonempty string array, starting at the first
/// item and consuming the closing bracket.
pub open spec fn p_str_items(s: Seq<char>, pos: int) -> Option<(Seq<Seq<char>>, int)>
    decreases s.len() - pos,
    when 0 <= pos <= s.len()
    via p_str_items_dec
{
    match p_string(s, pos) {
        None => None,
        Some((item, e)) => {
            let q = ws_end(s, e);
            if q < s.len() && s[q] == ',' {
                match p_str_items(s, q + 1) {
                    None => None,
                    Some((items, e2)) => Some((seq![item] + items, e2)),
                }
            } else if q < s.len() && s[q] == ']' {
                Some((seq![item], q + 1))
            } else {
                None
            }
        },
    }
}

#[via_fn]
proof fn p_str_items_dec(s: Seq<char>, pos: int) {
    lemma_p_string_bounds(s, pos);
    match p_string(s, pos) {
        None => {},
        Some((item, e)) => {
            lemma_ws_end(s, e);
        },
    }
}

/// Parses a string array value at `pos`, after any whitespace.
pub open spec fn p_str_array(s: Seq<char>, pos: int) -> Option<(Seq<Seq<char>>, int)> {
    let q = ws_end(s, pos);
    if 0 <= q < s.len() && s[q] == '[' {
        let q1 = ws_end(s, q + 1);
        if q1 < s.len() && s[q1] == ']' {
            Some((Seq::empty(), q1 + 1))
        } else {
            p_str_items(s, q1)
        }
    } else {
        None
    }
}

/// Parsed string-array items end after their opening position.
pub proof fn lemma_p_str_items_bounds(s: Seq<char>, pos: int)
    requires
        0 <= pos <= s.len(),
    ensures
        match p_str_items(s, pos) {
            Some(t) => pos < t.1 <= s.len(),
            None => true,
        },
    decreases s.len() - pos,
{
    lemma_p_string_bounds(s, pos);
    match p_string(s, pos) {
        None => {},
        Some((item, e)) => {
            lemma_ws_end(s, e);
            let q = ws_end(s, e);
            if q < s.len() && s[q] == ',' {
                lemma_p_str_items_bounds(s, q + 1);
            }
        },
    }
}

/// A parsed string array ends after its opening position.
pub proof fn lemma_p_str_array_bounds(s: Seq<char>, pos: int)
    requires
        0 <= pos <= s.len(),
    ensures
        match p_str_array(s, pos) {
            Some(t) => pos < t.1 <= s.len(),
            None => true,
        },
{
    lemma_ws_end(s, pos);
    let q = ws_end(s, pos);
    if 0 <= q < s.len() && s[q] == '[' {
        lemma_ws_end(s, q + 1);
        let q1 = ws_end(s, q + 1);
        if !(q1 < s.len() && s[q1] == ']') {
            lemma_p_str_items_bounds(s, q1);
        }
    }
}

/// After `pos`: whitespace, the quoted key, whitespace, and a colon; the
/// position after the colon.
pub open spec fn p_key(s: Seq<char>, pos: int, key: Seq<char>) -> Option<int> {
    let q = ws_end(s, pos);
    match expect(s, q, key) {
        None => None,
        Some(e) => {
            let q2 = ws_end(s, e);
            if q2 < s.len() && s[q2] == ':' {
                Some(q2 + 1)
            } else {
                None
            }
        },
    }
}

/// After `pos`: whitespace, a comma, then the key and its colon.
pub open spec fn p_sep_key(s: Seq<char>, pos: int, key: Seq<char>) -> Option<int> {
    let q = ws_end(s, pos);
    if q < s.len() && s[q] == ',' {
        p_key(s, q + 1, key)
    } else {
        None
    }
}

/// A parsed key ends at or after its starting position.
pub proof fn lemma_p_key_bounds(s: Seq<char>, pos: int, key: Seq<char>)
    requires
        0 <= pos <= s.len(),
    ensures
        match p_key(s, pos, key) {
            Some(e) => pos <= e <= s.len(),
            None => true,
        },
{
    lemma_ws_end(s, pos);
    let q = ws_end(s, pos);
    match expect(s, q, key) {
        None => {},
        Some(e) => {
            lemma_ws_end(s, e);
        },
    }
}

/// A parsed separator and key end after their starting position.
pub proof fn lemma_p_sep_key_bounds(s: Seq<char>, pos: int, key: Seq<char>)
    requires
        0 <= pos <= s.len(),
    ensures
        match p_sep_key(s, pos, key) {
            Some(e) => pos < e <= s.len(),
            None => true,
        },
{
    lemma_ws_end(s, pos);
    let q = ws_end(s, pos);
    if q < s.len() && s[q] == ',' {
        lemma_p_key_bounds(s, q + 1, key);
    }
}

/// Parses one package record at `pos`: the five fields in fixed order,
/// with any whitespace between tokens.
pub open spec fn p_package(s: Seq<char>, pos: int) -> Option<(PackageView, int)> {
    let q0 = ws_end(s, pos);
    if 0 <= q0 < s.len() && s[q0] == '{' {
        match p_key(s, q0 + 1, "\"name\""@) {
            None => None,
            Some(v1) => match p_string(s, v1) {
                None => None,
                Some((name, p1)) => match p_sep_key(s, p1, "\"features\""@) {
                    None => None,
                    Some(v2) => match p_str_array(s, v2) {
                        None => None,
                        Some((features, p2)) => match p_sep_key(s, p2, "\"all_features\""@) {
                            None => None,
                            Some(v3) => match p_bool(s, v3) {
                                None => None,
                                Some((all_features, p3)) => match p_sep_key(
                                    s,
                                    p3,
                                    "\"no_default_features\""@,
                                ) {
                                    None => None,
                                    Some(v4) => match p_bool(s, v4) {
                                        None => None,
                                        Some((no_default_features, p4)) => match p_sep_key(
                                            s,
                                            p4,
                                            "\"version\""@,
                                        ) {
                                            None => None,
                                            Some(v5) => match p_version(s, v5) {
                                                None => None,
                                                Some((version, p5)) => {
                                                    let q6 = ws_end(s, p5);
                                                    if q6 < s.len() && s[q6] == '}' {
                                                        Some(
                                                            (
                                                                PackageView {
                                                                    name,
                                                                    features,
                                                                    all_features,
                                                                    no_default_features,
                                                                    version,
                                                                },
                                                                q6 + 1,
                                                            ),
                                                        )
                                                    } else {
                                                        None
                                                    }
                                                },
                                            },
                                        },
                                    },
                                },
                            },
                        },
                    },
                },
            },
        }
    } else {
        None
    }
}

/// A parsed version value ends after its opening position.
pub proof fn lemma_p_version_bounds(s: Seq<char>, pos: int)
    requires
        0 <= pos <= s.len(),
    ensures
        match p_version(s, pos) {
            Some(t) => pos < t.1 <= s.len(),
            None => true,
        },
{
    lemma_ws_end(s, pos);
    let q = ws_end(s, pos);
    if 0 <= q < s.len() && s[q] == '"' {
        crate::version::lemma_parse_version_at_bounds(s, q + 1);
    }
}

/// A parsed boolean ends at or after its starting position.
pub proof fn lemma_p_bool_bounds(s: Seq<char>, pos: int)
    requires
        0 <= pos <= s.len(),
    ensures
        match p_bool(s, pos) {
            Some(t) => pos <= t.1 <= s.len(),
            None => true,
        },
{
    lemma_ws_end(s, pos);
}

/// A parsed package record ends after its opening position.
pub proof fn lemma_p_package_bounds(s: Seq<char>, pos: int)
    requires
        0 <= pos <= s.len(),
    ensures
        match p_package(s, pos) {
            Some(t) => pos < t.1 <= s.len(),
            None => true,
        },
{
    lemma_ws_end(s, pos);
    let q0 = ws_end(s, pos);
    if 0 <= q0 < s.len() && s[q0] == '{' {
        lemma_p_key_bounds(s, q0 + 1, "\"name\""@);
        match p_key(s, q0 + 1, "\"name\""@) {
            None => {},
            Some(v1) => {
                lemma_p_string_bounds(s, v1);
                match p_string(s, v1) {
                    None => {},
                    Some((name, p1)) => {
                        lemma_p_sep_key_bounds(s, p1, "\"features\""@);
                        match p_sep_key(s, p1, "\"features\""@) {
                            None => {},
                            Some(v2) => {
                                lemma_p_str_array_bounds(s, v2);
                                match p_str_array(s, v2) {
                                    None => {},
                                    Some((features, p2)) => {
                                        lemma_p_package_bounds_mid(s, p2);
                                    },
                                }
                            },
                        }
                    },
                }
            },
        }
    }
}

/// Bounds for a package record from the `all_features` separator on.
proof fn lemma_p_package_bounds_mid(s: Seq<char>, p2: int)
    requires
        0 <= p2 <= s.len(),
    ensures
        match p_sep_key(s, p2, "\"all_features\""@) {
            None => true,
            Some(v3) => match p_bool(s, v3) {
                None => true,
                Some(t3) => match p_sep_key(s, t3.1, "\"no_default_features\""@) {
                    None => true,
                    Some(v4) => match p_bool(s, v4) {
                        None => true,
                        Some(t4) => match p_sep_key(s, t4.1, "\"version\""@) {
                            None => true,
                            Some(v5) => match p_version(s, v5) {
                                None => true,
                                Some(t5) => p2 <= t5.1 <= s.len() && p2 <= ws_end(s, t5.1)
                                    <= s.len(),
                            },
                        },
                    },
                },
            },
        },
{
    lemma_p_sep_key_bounds(s, p2, "\"all_features\""@);
    match p_sep_key(s, p2, "\"all_features\""@) {
        None => {},
        Some(v3) => {
            lemma_p_bool_bounds(s, v3);
            match p_bool(s, v3) {
                None => {},
                Some(t3) => {
                    lemma_p_sep_key_bounds(s, t3.1, "\"no_default_features\""@);
                    match p_sep_key(s, t3.1, "\"no_default_features\""@) {
                        None => {},
                        Some(v4) => {
                            lemma_p_bool_bounds(s, v4);
                            match p_bool(s, v4) {
                                None => {},
                                Some(t4) => {
                                    lemma_p_sep_key_bounds(s, t4.1, "\"version\""@);
                                    match p_sep_key(s, t4.1, "\"version\""@) {
                                        None => {},
                                        Some(v5) => {
                                            lemma_p_version_bounds(s, v5);
                                            match p_version(s, v5) {
                                                None => {},
                                                Some(t5) => {
                                                    lemma_ws_end(s, t5.1);
                                                },
                                            }
                                        },
                                    }
                                },
                            }
                        },
                    }
                },
            }
        },
    }
}

/// Parses the records of a nonempty package array, starting at the first
/// record and consuming the closing bracket.
pub open spec fn p_pkg_items(s: Seq<char>, pos: int) -> Option<(Seq<PackageView>, int)>
    decreases s.len() - pos,
    when 0 <= pos <= s.len()
    via p_pkg_items_dec
{
    match p_package(s, pos) {
        None => None,
        Some((pkg, e)) => {
            let q = ws_end(s, e);
            if q < s.len() && s[q] == ',' {
                match p_pkg_items(s, q + 1) {
                    None => None,
                    Some((pkgs, e2)) => Some((seq![pkg] + pkgs, e2)),
                }
            } else if q < s.len() && s[q] == ']' {
                Some((seq![pkg], q + 1))
            } else {
                None
            }
        },
    }
}

#[via_fn]
proof fn p_pkg_items_dec(s: Seq<char>, pos: int) {
    lemma_p_package_bounds(s, pos);
    match p_package(s, pos) {
        None => {},
        Some((pkg, e)) => {
            lemma_ws_end(s, e);
        },
    }
}

/// Parses a whole text as a package set in the backup format: an array of
/// package records and nothing but whitespace around it.
pub open spec fn spec_parse_packages(s: Seq<char>) -> Option<Seq<PackageView>> {
    let q0 = ws_end(s, 0);
    if 0 <= q0 < s.len() && s[q0] == '[' {
        let q1 = ws_end(s, q0 + 1);
        if q1 < s.len() && s[q1] == ']' {
            if ws_end(s, q1 + 1) == s.len() {
                Some(Seq::empty())
            } else {
                None
            }
        } else {
            match p_pkg_items(s, q1) {
                None => None,
                Some((pkgs, e)) => if ws_end(s, e) == s.len() {
                    Some(pkgs)
                } else {
                    None
                },
            }
        }
    } else {
        None
    }
}

/// When the escaped form of `t` followed by a closing quote stands at
/// `pos`, the string-body parser recovers exactly `t`.
proof fn lemma_esc_rt(s: Seq<char>, pos: int, t: Seq<char>)
    requires
        0 <= pos,
        pos + esc(t).len() + 1 <= s.len(),
        s.subrange(pos, pos + esc(t).len() + 1) == esc(t) + seq!['"'],
    ensures
        p_string_body(s, pos) == Some((t, pos + esc(t).len() + 1)),
    decreases t.len(),
{
    let region = esc(t) + seq!['"'];
    if t.len() == 0 {
        assert(esc(t).len() == 0);
        assert(s[pos] == s.subrange(pos, pos + esc(t).len() + 1)[0]);
        assert(s[pos] == '"');
    } else {
        let c = t[0];
        let rest = t.drop_first();
        lemma_esc_app(seq![c], rest);
        assert(seq![c] + rest =~= t);
        assert(seq![c].drop_first() =~= Seq::<char>::empty());
        assert(esc(seq![c]) =~= esc_char(c));
        assert(esc(t) == esc_char(c) + esc(rest));
        assert(region =~= esc_char(c) + (esc(rest) + seq!['"']));
        lemma_slice_parts(s, pos, esc_char(c), esc(rest) + seq!['"']);
        if c == '\\' || c == '"' {
            assert(esc_char(c) =~= seq!['\\', c]);
            assert(s[pos] == s.subrange(pos, pos + 2)[0]);
            assert(s[pos + 1] == s.subrange(pos, pos + 2)[1]);
            assert(s[pos] == '\\');
            assert(s[pos + 1] == c);
            assert(s[pos + 1] != 'u');
            assert(esc_code(c) == Some(c));
            lemma_esc_rt(s, pos + 2, rest);
            assert(seq![c] + rest =~= t);
            assert(pos + 2 + esc(rest).len() + 1 == pos + esc(t).len() + 1);
        } else {
            assert(esc_char(c) =~= seq![c]);
            assert(s[pos] == s.subrange(pos, pos + 1)[0]);
            assert(s[pos] == c);
            lemma_esc_rt(s, pos + 1, rest);
            assert(seq![s[pos]] + rest =~= t);
            assert(pos + 1 + esc(rest).len() + 1 == pos + esc(t).len() + 1);
        }
    }
}

/// When the quoted form of `t` stands at `pos`, the string parser
/// recovers exactly `t`.
proof fn lemma_string_rt(s: Seq<char>, pos: int, t: Seq<char>)
    requires
        0 <= pos,
        pos + ser_string(t).len() <= s.len(),
        s.subrange(pos, pos + ser_string(t).len() as int) == ser_string(t),
    ensures
        p_string(s, pos) == Some((t, pos + ser_string(t).len() as int)),
{
    assert(ser_string(t) =~= seq!['"'] + (esc(t) + seq!['"']));
    lemma_slice_parts(s, pos, seq!['"'], esc(t) + seq!['"']);
    assert(s[pos] == s.subrange(pos, pos + 1)[0]);
    assert(s[pos] == '"');
    assert(!is_ws('"'));
    assert(ws_end(s, pos) == pos);
    lemma_esc_rt(s, pos + 1, t);
}

/// When the written form of `b` stands at `pos`, the boolean parser
/// recovers exactly `b`.
proof fn lemma_bool_rt(s: Seq<char>, pos: int, b: bool)
    requires
        0 <= pos,
        pos + ser_bool(b).len() <= s.len(),
        s.subrange(pos, pos + ser_bool(b).len() as int) == ser_bool(b),
    ensures
        p_bool(s, pos) == Some((b, pos + ser_bool(b).len() as int)),
{
    proof_literals();
    assert(s[pos] == s.subrange(pos, pos + ser_bool(b).len() as int)[0]);
    assert(!is_ws(s[pos]));
    assert(ws_end(s, pos) == pos);
    if b {
        assert(expect(s, pos, "true"@) == Some(pos + 4));
    } else {
        if pos + 4 <= s.len() {
            assert(s[pos] == 'f');
            assert(s.subrange(pos, pos + 4)[0] == 'f');
            assert(s.subrange(pos, pos + 4) != "true"@);
        }
        assert(expect(s, pos, "true"@) is None);
        assert(expect(s, pos, "false"@) == Some(pos + 5));
    }
}

/// The character values of the literals the format is written with.
proof fn proof_literals()
    ensures
        "true"@ =~= seq!['t', 'r', 'u', 'e'],
        "false"@ =~= seq!['f', 'a', 'l', 's', 'e'],
        "\"name\""@.len() == 6,
        "\"name\""@[0] == '"',
        "\"features\""@.len() == 10,
        "\"features\""@[0] == '"',
        "\"all_features\""@.len() == 14,
        "\"all_features\""@[0] == '"',
        "\"no_default_features\""@.len() == 21,
        "\"no_default_features\""@[0] == '"',
        "\"version\""@.len() == 9,
        "\"version\""@[0] == '"',
{
    reveal_strlit("true");
    reveal_strlit("false");
    reveal_strlit("\"name\"");
    reveal_strlit("\"features\"");
    reveal_strlit("\"all_features\"");
    reveal_strlit("\"no_default_features\"");
    reveal_strlit("\"version\"");
}

/// When a quoted version rendering stands at `pos`, the version parser
/// recovers exactly the version.
proof fn lemma_version_rt(s: Seq<char>, pos: int, v: VersionView)
    requires
        version_wf(v),
        0 <= pos,
        pos + version_chars(v).len() + 2 <= s.len(),
        s.subrange(pos, pos + version_chars(v).len() + 2) == seq!['"'] + version_chars(v)
            + seq!['"'],
    ensures
        p_version(s, pos) == Some((v, pos + version_chars(v).len() + 2)),
{
    let vc = version_chars(v);
    let region = seq!['"'] + vc + seq!['"'];
    assert(region =~= seq!['"'] + (vc + seq!['"']));
    lemma_slice_parts(s, pos, seq!['"'], vc + seq!['"']);
    assert(s[pos] == s.subrange(pos, pos + 1)[0]);
    assert(s[pos] == '"');
    assert(!is_ws('"'));
    assert(ws_end(s, pos) == pos);
    let q1 = pos + 1;
    lemma_slice_parts(s, q1, vc, seq!['"']);
    let q2 = q1 + vc.len() as int;
    assert(s[q2] == s.subrange(q2, q2 + 1)[0]);
    assert(s[q2] == '"');
    assert(!is_ident_char('"'));
    lemma_version_chars_parse(s, q1, v);
}

/// When a key and its colon stand compactly at `pos`, the key parser
/// passes them.
proof fn lemma_key_rt(s: Seq<char>, pos: int, key: Seq<char>)
    requires
        0 <= pos,
        key.len() >= 1,
        !is_ws(key[0]),
        pos + key.len() + 1 <= s.len(),
        s.subrange(pos, pos + key.len() + 1) == key + seq![':'],
    ensures
        p_key(s, pos, key) == Some(pos + key.len() + 1),
{
    lemma_slice_parts(s, pos, key, seq![':']);
    assert(s[pos] == s.subrange(pos, pos + key.len() as int)[0]);
    assert(s[pos] == key[0]);
    assert(ws_end(s, pos) == pos);
    let e = pos + key.len() as int;
    assert(expect(s, pos, key) == Some(e));
    assert(s[e] == s.subrange(e, e + 1)[0]);
    assert(s[e] == ':');
    assert(!is_ws(':'));
    assert(ws_end(s, e) == e);
}

/// When a comma, a key and its colon stand compactly at `pos`, the
/// separator-and-key parser passes them.
proof fn lemma_sep_key_rt(s: Seq<char>, pos: int, key: Seq<char>)
    requires
        0 <= pos,
        key.len() >= 1,
        !is_ws(key[0]),
        pos + key.len() + 2 <= s.len(),
        s.subrange(pos, pos + key.len() + 2) == seq![','] + (key + seq![':']),
    ensures
        p_sep_key(s, pos, key) == Some(pos + key.len() + 2),
{
    lemma_slice_parts(s, pos, seq![','], key + seq![':']);
    assert(s[pos] == s.subrange(pos, pos + 1)[0]);
    assert(s[pos] == ',');
    assert(!is_ws(','));
    assert(ws_end(s, pos) == pos);
    lemma_key_rt(s, pos + 1, key);
}

/// The tail of a package record, from the `all_features` separator on, in
/// right-nested form.
pub open spec fn ser_pkg_tail(p: PackageView) -> Seq<char> {
    (seq![','] + ("\"all_features\""@ + seq![':'])) + (ser_bool(p.all_features) + ((seq![','] + (
    "\"no_default_features\""@ + seq![':'])) + (ser_bool(p.no_default_features) + ((seq![','] + (
    "\"version\""@ + seq![':'])) + ((seq!['"'] + version_chars(p.version) + seq!['"'])
        + seq!['}'])))))
}

/// A package record splits into its name and features head and its tail.
#[verifier::rlimit(100)]
proof fn lemma_ser_package_split(p: PackageView)
    ensures
        ser_package(p) == seq!['{'] + (("\"name\""@ + seq![':']) + (ser_string(p.name) + ((
        seq![','] + ("\"features\""@ + seq![':'])) + (ser_str_array(p.features) + ser_pkg_tail(
            p,
        ))))),
{
    reveal(ser_package);
    assert(ser_package(p) =~= seq!['{'] + (("\"name\""@ + seq![':']) + (ser_string(p.name) + ((
    seq![','] + ("\"features\""@ + seq![':'])) + (ser_str_array(p.features) + ser_pkg_tail(p))))));
}

/// A package record is nonempty and opens with a brace.
proof fn lemma_ser_package_first(p: PackageView)
    ensures
        ser_package(p).len() >= 1,
        ser_package(p)[0] == '{',
{
    proof_literals();
    lemma_ser_package_split(p);
}

/// When the tail of a package record stands at `q4`, the parse chain
/// from the `all_features` separator recovers the record's flag and
/// version fields.
#[verifier::rlimit(100)]
proof fn lemma_package_rt_tail(s: Seq<char>, q4: int, p: PackageView)
    requires
        version_wf(p.version),
        0 <= q4,
        q4 + ser_pkg_tail(p).len() <= s.len(),
        s.subrange(q4, q4 + ser_pkg_tail(p).len() as int) == ser_pkg_tail(p),
    ensures
        ({
            let l3 = "\"all_features\""@;
            let l4 = "\"no_default_features\""@;
            let l5 = "\"version\""@;
            let v3 = q4 + 2 + l3.len() as int;
            let p3 = v3 + ser_bool(p.all_features).len() as int;
            let v4 = p3 + 2 + l4.len() as int;
            let p4 = v4 + ser_bool(p.no_default_features).len() as int;
            let v5 = p4 + 2 + l5.len() as int;
            let p5 = v5 + version_chars(p.version).len() + 2;
            &&& p_sep_key(s, q4, l3) == Some(v3)
            &&& p_bool(s, v3) == Some((p.all_features, p3))
            &&& p_sep_key(s, p3, l4) == Some(v4)
            &&& p_bool(s, v4) == Some((p.no_default_features, p4))
            &&& p_sep_key(s, p4, l5) == Some(v5)
            &&& p_version(s, v5) == Some((p.version, p5))
            &&& ws_end(s, p5) == p5
            &&& p5 < s.len()
            &&& s[p5] == '}'
            &&& p5 + 1 == q4 + ser_pkg_tail(p).len()
        }),
{
    proof_literals();
    let l3 = "\"all_features\""@;
    let l4 = "\"no_default_features\""@;
    let l5 = "\"version\""@;
    let vq = seq!['"'] + version_chars(p.version) + seq!['"'];
    let t9 = vq + seq!['}'];
    let t8 = (seq![','] + (l5 + seq![':'])) + t9;
    let t7 = ser_bool(p.no_default_features) + t8;
    let t6 = (seq![','] + (l4 + seq![':'])) + t7;
    let t5 = ser_bool(p.all_features) + t6;
    assert(ser_pkg_tail(p) =~= (seq![','] + (l3 + seq![':'])) + t5);
    lemma_slice_parts(s, q4, seq![','] + (l3 + seq![':']), t5);
    assert(s.subrange(q4, q4 + l3.len() + 2) =~= seq![','] + (l3 + seq![':']));
    lemma_sep_key_rt(s, q4, l3);
    let v3 = q4 + 2 + l3.len() as int;
    lemma_slice_parts(s, v3, ser_bool(p.all_features), t6);
    lemma_bool_rt(s, v3, p.all_features);
    let p3 = v3 + ser_bool(p.all_features).len() as int;
    lemma_slice_parts(s, p3, seq![','] + (l4 + seq![':']), t7);
    assert(s.subrange(p3, p3 + l4.len() + 2) =~= seq![','] + (l4 + seq![':']));
    lemma_sep_key_rt(s, p3, l4);
    let v4 = p3 + 2 + l4.len() as int;
    lemma_slice_parts(s, v4, ser_bool(p.no_default_features), t8);
    lemma_bool_rt(s, v4, p.no_default_features);
    let p4 = v4 + ser_bool(p.no_default_features).len() as int;
    lemma_slice_parts(s, p4, seq![','] + (l5 + seq![':']), t9);
    assert(s.subrange(p4, p4 + l5.len() + 2) =~= seq![','] + (l5 + seq![':']));
    lemma_sep_key_rt(s, p4, l5);
    let v5 = p4 + 2 + l5.len() as int;
    lemma_slice_parts(s, v5, vq, seq!['}']);
    lemma_version_rt(s, v5, p.version);
    let p5 = v5 + vq.len() as int;
    assert(s[p5] == s.subrange(p5, p5 + 1)[0]);
    assert(s[p5] == '}');
    assert(!is_ws('}'));
    assert(ws_end(s, p5) == p5);
}

/// When the written form of a package record stands at `pos`, the record
/// parser recovers exactly the package.
#[verifier::rlimit(100)]
proof fn lemma_package_rt(s: Seq<char>, pos: int, p: PackageView)
    requires
        version_wf(p.version),
        0 <= pos,
        pos + ser_package(p).len() <= s.len(),
        s.subrange(pos, pos + ser_package(p).len() as int) == ser_package(p),
    ensures
        p_package(s, pos) == Some((p, pos + ser_package(p).len() as int)),
{
    proof_literals();
    let l1 = "\"name\""@;
    let l2 = "\"features\""@;
    let t3 = ser_str_array(p.features) + ser_pkg_tail(p);
    let t2 = (seq![','] + (l2 + seq![':'])) + t3;
    let t1 = ser_string(p.name) + t2;
    let t0 = (l1 + seq![':']) + t1;
    lemma_ser_package_split(p);
    assert(ser_package(p) =~= seq!['{'] + t0);
    lemma_slice_parts(s, pos, seq!['{'], t0);
    assert(s[pos] == s.subrange(pos, pos + 1)[0]);
    assert(s[pos] == '{');
    assert(!is_ws('{'));
    assert(ws_end(s, pos) == pos);
    lemma_slice_parts(s, pos + 1, l1 + seq![':'], t1);
    assert(s.subrange(pos + 1, pos + 1 + l1.len() + 1) =~= l1 + seq![':']);
    lemma_key_rt(s, pos + 1, l1);
    let v1 = pos + 1 + l1.len() + 1;
    lemma_slice_parts(s, v1, ser_string(p.name), t2);
    lemma_string_rt(s, v1, p.name);
    let p1 = v1 + ser_string(p.name).len() as int;
    lemma_slice_parts(s, p1, seq![','] + (l2 + seq![':']), t3);
    assert(s.subrange(p1, p1 + l2.len() + 2) =~= seq![','] + (l2 + seq![':']));
    lemma_sep_key_rt(s, p1, l2);
    let v2 = p1 + 2 + l2.len() as int;
    lemma_slice_parts(s, v2, ser_str_array(p.features), ser_pkg_tail(p));
    lemma_str_array_rt(s, v2, p.features);
    let p2 = v2 + ser_str_array(p.features).len() as int;
    lemma_package_rt_tail(s, p2, p);
    assert(p_package(s, pos) matches Some(t) && t.0 == PackageView {
        name: p.name,
        features: p.features,
        all_features: p.all_features,
        no_default_features: p.no_default_features,
        version: p.version,
    } && t.1 == pos + ser_package(p).len());
    assert(PackageView {
        name: p.name,
        features: p.features,
        all_features: p.all_features,
        no_default_features: p.no_default_features,
        version: p.version,
    } == p);
}

/// When the joined items of a nonempty string array, closed by `]`,
/// stand at `pos`, the item parser recovers exactly the items.
proof fn lemma_str_items_rt(s: Seq<char>, pos: int, items: Seq<Seq<char>>)
    requires
        items.len() >= 1,
        0 <= pos,
        pos + spec_join(ser_string_items(items), seq![',']).len() + 1 <= s.len(),
        s.subrange(pos, pos + spec_join(ser_string_items(items), seq![',']).len() + 1)
            == spec_join(ser_string_items(items), seq![',']) + seq![']'],
    ensures
        p_str_items(s, pos) == Some(
            (items, pos + spec_join(ser_string_items(items), seq![',']).len() + 1),
        ),
    decreases items.len(),
{
    let run = ser_string_items(items);
    assert(run.len() == items.len());
    lemma_join_front(run, seq![',']);
    let first = ser_string(items[0]);
    assert(run[0] == first);
    if items.len() == 1 {
        assert(spec_join(run, seq![',']) == first);
        lemma_slice_parts(s, pos, first, seq![']']);
        lemma_string_rt(s, pos, items[0]);
        let e = pos + first.len() as int;
        assert(s[e] == s.subrange(e, e + 1)[0]);
        assert(s[e] == ']');
        assert(!is_ws(']'));
        assert(ws_end(s, e) == e);
        assert(seq![items[0]] =~= items);
    } else {
        let rest_join = spec_join(ser_string_items(items.drop_first()), seq![',']);
        assert(ser_string_items(items.drop_first()) =~= run.drop_first());
        assert(spec_join(run, seq![',']) == first + seq![','] + rest_join);
        assert(spec_join(run, seq![',']) + seq![']'] =~= first + (seq![','] + (rest_join
            + seq![']'])));
        lemma_slice_parts(s, pos, first, seq![','] + (rest_join + seq![']']));
        lemma_string_rt(s, pos, items[0]);
        let e = pos + first.len() as int;
        lemma_slice_parts(s, e, seq![','], rest_join + seq![']']);
        assert(s[e] == s.subrange(e, e + 1)[0]);
        assert(s[e] == ',');
        assert(!is_ws(','));
        assert(ws_end(s, e) == e);
        lemma_str_items_rt(s, e + 1, items.drop_first());
        assert(seq![items[0]] + items.drop_first() =~= items);
    }
}

/// When the written form of a string array stands at `pos`, the array
/// parser recovers exactly the items.
proof fn lemma_str_array_rt(s: Seq<char>, pos: int, items: Seq<Seq<char>>)
    requires
        0 <= pos,
        pos + ser_str_array(items).len() <= s.len(),
        s.subrange(pos, pos + ser_str_array(items).len() as int) == ser_str_array(items),
    ensures
        p_str_array(s, pos) == Some((items, pos + ser_str_array(items).len() as int)),
{
    let run = ser_string_items(items);
    assert(run.len() == items.len());
    let body = spec_join(run, seq![',']) + seq![']'];
    assert(ser_str_array(items) =~= seq!['['] + body);
    lemma_slice_parts(s, pos, seq!['['], body);
    assert(s[pos] == s.subrange(pos, pos + 1)[0]);
    assert(s[pos] == '[');
    assert(!is_ws('['));
    assert(ws_end(s, pos) == pos);
    if items.len() == 0 {
        assert(spec_join(run, seq![',']) == Seq::<char>::empty());
        assert(body =~= seq![']']);
        assert(s[pos + 1] == s.subrange(pos + 1, pos + 2)[0]);
        assert(s[pos + 1] == ']');
        assert(!is_ws(']'));
        assert(ws_end(s, pos + 1) == pos + 1);
        assert(items =~= Seq::<Seq<char>>::empty());
    } else {
        lemma_join_front(run, seq![',']);
        assert(spec_join(run, seq![','])[0] == ser_string(items[0])[0]);
        assert(ser_string(items[0])[0] == '"');
        assert(s[pos + 1] == body[0]);
        assert(s[pos + 1] == '"');
        assert(!is_ws('"'));
        assert(ws_end(s, pos + 1) == pos + 1);
        lemma_str_items_rt(s, pos + 1, items);
    }
}

/// When the joined records of a nonempty package array, closed by `]`,
/// stand at `pos`, the record-list parser recovers exactly the records.
proof fn lemma_pkg_items_rt(s: Seq<char>, pos: int, ps: Seq<PackageView>)
    requires
        packages_wf(ps),
        ps.len() >= 1,
        0 <= pos,
        pos + spec_join(ser_package_items(ps), seq![',']).len() + 1 <= s.len(),
        s.subrange(pos, pos + spec_join(ser_package_items(ps), seq![',']).len() + 1)
            == spec_join(ser_package_items(ps), seq![',']) + seq![']'],
    ensures
        p_pkg_items(s, pos) == Some(
            (ps, pos + spec_join(ser_package_items(ps), seq![',']).len() + 1),
        ),
    decreases ps.len(),
{
    let run = ser_package_items(ps);
    assert(run.len() == ps.len());
    lemma_join_front(run, seq![',']);
    let first = ser_package(ps[0]);
    assert(run[0] == first);
    if ps.len() == 1 {
        assert(version_wf(ps[0].version));
        assert(spec_join(run, seq![',']) == first);
        lemma_slice_parts(s, pos, first, seq![']']);
        lemma_package_rt(s, pos, ps[0]);
        let e = pos + first.len() as int;
        assert(s[e] == s.subrange(e, e + 1)[0]);
        assert(s[e] == ']');
        assert(!is_ws(']'));
        assert(ws_end(s, e) == e);
        assert(seq![ps[0]] =~= ps);
    } else {
        let rest_join = spec_join(ser_package_items(ps.drop_first()), seq![',']);
        assert(version_wf(ps[0].version));
        assert(forall|i: int|
            0 <= i < ps.drop_first().len() ==> version_wf((#[trigger] ps.drop_first()[i]).version));
        assert(ser_package_items(ps.drop_first()) =~= run.drop_first());
        assert(spec_join(run, seq![',']) == first + seq![','] + rest_join);
        assert(spec_join(run, seq![',']) + seq![']'] =~= first + (seq![','] + (rest_join
            + seq![']'])));
        lemma_slice_parts(s, pos, first, seq![','] + (rest_join + seq![']']));
        lemma_package_rt(s, pos, ps[0]);
        let e = pos + first.len() as int;
        lemma_slice_parts(s, e, seq![','], rest_join + seq![']']);
        assert(s[e] == s.subrange(e, e + 1)[0]);
        assert(s[e] == ',');
        assert(!is_ws(','));
        assert(ws_end(s, e) == e);
        lemma_pkg_items_rt(s, e + 1, ps.drop_first());
        assert(seq![ps[0]] + ps.drop_first() =~= ps);
    }
}

/// Law: serializing a package set to the backup format and parsing the
/// result yields back exactly the same set, for every representable set:
/// the round trip loses no name, feature flag, boolean or version.
pub proof fn lemma_backup_roundtrip(ps: Seq<PackageView>)
    requires
        packages_wf(ps),
    ensures
        spec_parse_packages(ser_packages(ps)) == Some(ps),
{
    let s = ser_packages(ps);
    let run = ser_package_items(ps);
    assert(run.len() == ps.len());
    let body = spec_join(run, seq![',']) + seq![']'];
    assert(s =~= seq!['['] + body);
    assert(s[0] == '[');
    assert(!is_ws('['));
    assert(ws_end(s, 0) == 0);
    assert(s.subrange(0, s.len() as int) =~= s);
    lemma_slice_parts(s, 0, seq!['['], body);
    if ps.len() == 0 {
        assert(spec_join(run, seq![',']) == Seq::<char>::empty());
        assert(s =~= seq!['[', ']']);
        assert(s.len() == 2 && s[1] == ']');
        assert(!is_ws(']'));
        assert(ws_end(s, 1) == 1);
        assert(ws_end(s, 2) == 2);
        assert(Seq::<PackageView>::empty() =~= ps);
    } else {
        proof_literals();
        lemma_join_front(run, seq![',']);
        lemma_ser_package_first(ps[0]);
        assert(spec_join(run, seq![','])[0] == ser_package(ps[0])[0]);
        assert(s[1] == body[0]);
        assert(s[1] == '{');
        assert(!is_ws('{'));
        assert(ws_end(s, 1) == 1);
        assert(s.len() >= 2);
        assert(s[1] != ']');
        lemma_pkg_items_rt(s, 1, ps);
        assert(1 + spec_join(run, seq![',']).len() + 1 == s.len());
        assert(ws_end(s, s.len() as int) == s.len());
    }
}

/// Appends the escaped form of `s` to `out`.
pub fn push_escaped(out: &mut Vec<char>, s: &str)
    ensures
        final(out)@ == old(out)@ + esc(s@),
{
    let n = s.unicode_len();
    let mut i: usize = 0;
    proof {
        assert(out@ + esc(s@.take(0)) =~= out@);
    }
    while i < n
        invariant
            n == s@.len(),
            0 <= i <= n,
            out@ == old(out)@ + esc(s@.take(i as int)),
        decreases n - i,
    {
        let c = s.get_char(i);
        if c == '\\' {
            out.push('\\');
            out.push('\\');
        } else if c == '"' {
            out.push('\\');
            out.push('"');
        } else {
            out.push(c);
        }
        i = i + 1;
        proof {
            assert(s@.take(i as int) =~= s@.take(i - 1) + seq![s@[i - 1]]);
            lemma_esc_app(s@.take(i - 1), seq![s@[i - 1]]);
            assert(seq![s@[i - 1]].drop_first() =~= Seq::<char>::empty());
            assert(esc(Seq::<char>::empty()) =~= Seq::<char>::empty());
            assert(esc(seq![s@[i - 1]]) =~= esc_char(s@[i - 1]));
            assert(out@ =~= old(out)@ + esc(s@.take(i as int)));
        }
    }
    proof {
        assert(s@.take(n as int) =~= s@);
    }
}

/// Appends the quoted form of `s` to `out`.
fn push_string(out: &mut Vec<char>, s: &str)
    ensures
        final(out)@ == old(out)@ + ser_string(s@),
{
    out.push('"');
    push_escaped(out, s);
    out.push('"');
    proof {
        assert(out@ =~= old(out)@ + ser_string(s@));
    }
}

/// Appends `true` or `false` to `out`.
fn push_bool(out: &mut Vec<char>, b: bool)
    ensures
        final(out)@ == old(out)@ + ser_bool(b),
{
    if b {
        push_str_chars(out, "true");
    } else {
        push_str_chars(out, "false");
    }
}

/// Appends the array form of the strings to `out`.
fn push_str_array(out: &mut Vec<char>, items: &Vec<String>)
    ensures
        final(out)@ == old(out)@ + ser_str_array(strs_view(items@)),
{
    let ghost ivs = strs_view(items@);
    out.push('[');
    let ghost mid = out@;
    let mut i: usize = 0;
    proof {
        assert(out@ =~= mid + spec_join(ser_string_items(ivs.take(0)), seq![',']));
    }
    while i < items.len()
        invariant
            0 <= i <= items@.len(),
            ivs == strs_view(items@),
            ivs.len() == items@.len(),
            out@ == mid + spec_join(ser_string_items(ivs.take(i as int)), seq![',']),
        decreases items@.len() - i,
    {
        if i > 0 {
            out.push(',');
        }
        push_string(out, items[i].as_str());
        i = i + 1;
        proof {
            let run = ser_string_items(ivs.take(i as int));
            assert(run.drop_last() =~= ser_string_items(ivs.take(i - 1)));
            assert(run.last() == ser_string(ivs[i - 1]));
            assert(ivs[i - 1] == items@[i - 1]@);
            if i - 1 == 0 {
                assert(ser_string_items(ivs.take(0)).len() == 0);
                assert(spec_join(ser_string_items(ivs.take(0)), seq![',']) == Seq::<char>::empty());
                assert(spec_join(run, seq![',']) == run[0]);
                assert(out@ =~= mid + spec_join(run, seq![',']));
            } else {
                assert(spec_join(run, seq![',']) == spec_join(run.drop_last(), seq![','])
                    + seq![','] + run.last());
                assert(out@ =~= mid + spec_join(run, seq![',']));
            }
        }
    }
    proof {
        assert(ivs.take(ivs.len() as int) =~= ivs);
    }
    out.push(']');
    proof {
        assert(out@ =~= old(out)@ + ser_str_array(ivs));
    }
}

/// Appends one package record to `out`, compactly.
#[verifier::rlimit(100)]
fn push_package(out: &mut Vec<char>, p: &Package)
    ensures
        final(out)@ == old(out)@ + ser_package(p@),
{
    out.push('{');
    push_str_chars(out, "\"name\"");
    out.push(':');
    push_string(out, p.name.as_str());
    out.push(',');
    push_str_chars(out, "\"features\"");
    out.push(':');
    push_str_array(out, &p.features);
    out.push(',');
    push_str_chars(out, "\"all_features\"");
    out.push(':');
    push_bool(out, p.all_features);
    out.push(',');
    push_str_chars(out, "\"no_default_features\"");
    out.push(':');
    push_bool(out, p.no_default_features);
    out.push(',');
    push_str_chars(out, "\"version\"");
    out.push(':');
    out.push('"');
    let mut ver = version_to_chars(&p.version);
    out.append(&mut ver);
    out.push('"');
    out.push('}');
    proof {
        reveal(ser_package);
        assert(out@ =~= old(out)@ + ser_package(p@));
    }
}

/// Serializes a package set to the backup format, compactly.
pub fn serialize_packages(ps: &Vec<Package>) -> (r: String)
    ensures
        r@ == ser_packages(views(ps@)),
{
    let ghost pvs = views(ps@);
    let mut out: Vec<char> = Vec::new();
    out.push('[');
    let ghost mid = out@;
    let mut i: usize = 0;
    proof {
        assert(out@ =~= mid + spec_join(ser_package_items(pvs.take(0)), seq![',']));
    }
    while i < ps.len()
        invariant
            0 <= i <= ps@.len(),
            pvs == views(ps@),
            pvs.len() == ps@.len(),
            out@ == mid + spec_join(ser_package_items(pvs.take(i as int)), seq![',']),
        decreases ps@.len() - i,
    {
        if i > 0 {
            out.push(',');
        }
        push_package(&mut out, &ps[i]);
        i = i + 1;
        proof {
            let run = ser_package_items(pvs.take(i as int));
            assert(run.drop_last() =~= ser_package_items(pvs.take(i - 1)));
            assert(run.last() == ser_package(pvs[i - 1]));
            assert(pvs[i - 1] == ps@[i - 1]@);
            if i - 1 == 0 {
                assert(ser_package_items(pvs.take(0)).len() == 0);
                assert(spec_join(ser_package_items(pvs.take(0)), seq![','])
                    == Seq::<char>::empty());
                assert(spec_join(run, seq![',']) == run[0]);
                assert(out@ =~= mid + spec_join(run, seq![',']));
            } else {
                assert(spec_join(run, seq![',']) == spec_join(run.drop_last(), seq![','])
                    + seq![','] + run.last());
                assert(out@ =~= mid + spec_join(run, seq![',']));
            }
        }
    }
    proof {
        assert(pvs.take(pvs.len() as int) =~= pvs);
    }
    out.push(']');
    proof {
        assert(out@ =~= ser_packages(pvs));
    }
    chars_to_string(&out)
}

/// Relies on std's `char::from_u32`: `Some` of the character with that
/// code point for every value that is not a surrogate and not above the
/// Unicode maximum, `None` for every other value.
#[verifier::external_body]
fn char_from_u32(v: u32) -> (r: Option<char>)
    ensures
        valid_scalar(v as int) ==> r == Some::<char>(v as char),
        !valid_scalar(v as int) ==> r is None,
{
    char::from_u32(v)
}

/// Skips insignificant whitespace.
fn skip_ws(s: &Vec<char>, pos: usize) -> (r: usize)
    requires
        pos <= s@.len(),
    ensures
        r as int == ws_end(s@, pos as int),
        pos <= r <= s@.len(),
{
    let ghost sq = s@;
    let mut i: usize = pos;
    loop
        invariant
            pos <= i <= sq.len(),
            s@ == sq,
            ws_end(sq, pos as int) == ws_end(sq, i as int),
        ensures
            pos <= i <= sq.len(),
            s@ == sq,
            ws_end(sq, pos as int) == i as int,
        decreases sq.len() - i,
    {
        if i >= s.len() {
            break;
        }
        let c = s[i];
        if !(c == ' ' || c == '\t' || c == '\n' || c == '\r') {
            break;
        }
        i = i + 1;
    }
    i
}

/// The value of a hexadecimal digit character.
fn hex_val_exec(c: char) -> (r: Option<u32>)
    ensures
        match r {
            Some(v) => hex_val(c) == Some(v as int) && v < 16,
            None => hex_val(c) is None,
        },
{
    match c {
        '0' => Some(0),
        '1' => Some(1),
        '2' => Some(2),
        '3' => Some(3),
        '4' => Some(4),
        '5' => Some(5),
        '6' => Some(6),
        '7' => Some(7),
        '8' => Some(8),
        '9' => Some(9),
        'a' => Some(10),
        'A' => Some(10),
        'b' => Some(11),
        'B' => Some(11),
        'c' => Some(12),
        'C' => Some(12),
        'd' => Some(13),
        'D' => Some(13),
        'e' => Some(14),
        'E' => Some(14),
        'f' => Some(15),
        'F' => Some(15),
        _ => None,
    }
}

/// Consumes `lit` at `pos`, yielding the position after it.
fn expect_lit(s: &Vec<char>, pos: usize, lit: &str) -> (r: Option<usize>)
    requires
        pos <= s@.len(),
    ensures
        match r {
            Some(e) => expect(s@, pos as int, lit@) == Some(e as int) && pos <= e <= s@.len(),
            None => expect(s@, pos as int, lit@) is None,
        },
{
    let n = lit.unicode_len();
    if n > s.len() - pos {
        return None;
    }
    let mut i: usize = 0;
    while i < n
        invariant
            n == lit@.len(),
            pos + n <= s@.len(),
            s@.len() <= usize::MAX,
            0 <= i <= n,
            forall|k: int| 0 <= k < i ==> s@[pos + k] == lit@[k],
        decreases n - i,
    {
        if s[pos + i] != lit.get_char(i) {
            proof {
                assert(s@.subrange(pos as int, pos + lit@.len())[i as int] != lit@[i as int]);
            }
            return None;
        }
        i = i + 1;
    }
    proof {
        assert(s@.subrange(pos as int, pos + lit@.len()) =~= lit@);
    }
    Some(pos + n)
}

/// Parses the rest of a quoted string after its opening quote.
fn parse_string_body(s: &Vec<char>, pos: usize) -> (r: Option<(Vec<char>, usize)>)
    requires
        pos <= s@.len(),
    ensures
        match r {
            Some(t) => p_string_body(s@, pos as int) == Some((t.0@, t.1 as int)) && pos < t.1
                <= s@.len(),
            None => p_string_body(s@, pos as int) is None,
        },
    decreases s@.len() - pos,
{
    if pos >= s.len() {
        return None;
    }
    let c = s[pos];
    if c == '"' {
        let empty: Vec<char> = Vec::new();
        proof {
            assert(empty@ =~= Seq::<char>::empty());
        }
        Some((empty, pos + 1))
    } else if c == '\\' {
        if pos + 1 >= s.len() {
            return None;
        }
        let c2 = s[pos + 1];
        if c2 == 'u' {
            if s.len() - pos < 6 {
                proof {
                    assert(hex4_at(s@, pos + 2) is None);
                }
                return None;
            }
            let h0 = hex_val_exec(s[pos + 2]);
            let h1 = hex_val_exec(s[pos + 3]);
            let h2 = hex_val_exec(s[pos + 4]);
            let h3 = hex_val_exec(s[pos + 5]);
            match (h0, h1, h2, h3) {
                (Some(a), Some(b), Some(cc), Some(d)) => {
                    let v: u32 = a * 4096 + b * 256 + cc * 16 + d;
                    match char_from_u32(v) {
                        None => None,
                        Some(ch) => {
                            match parse_string_body(s, pos + 6) {
                                None => None,
                                Some((t, e)) => {
                                    let mut t = t;
                                    let ghost told = t@;
                                    t.insert(0, ch);
                                    proof {
                                        assert(t@ =~= seq![ch] + told);
                                    }
                                    Some((t, e))
                                },
                            }
                        },
                    }
                },
                _ => None,
            }
        } else {
            let decoded = if c2 == '"' {
                Some('"')
            } else if c2 == '\\' {
                Some('\\')
            } else if c2 == '/' {
                Some('/')
            } else if c2 == 'b' {
                Some('\u{0008}')
            } else if c2 == 'f' {
                Some('\u{000C}')
            } else if c2 == 'n' {
                Some('\n')
            } else if c2 == 'r' {
                Some('\r')
            } else if c2 == 't' {
                Some('\t')
            } else {
                None
            };
            match decoded {
                None => None,
                Some(d) => {
                    match parse_string_body(s, pos + 2) {
                        None => None,
                        Some((t, e)) => {
                            let mut t = t;
                            let ghost told = t@;
                            t.insert(0, d);
                            proof {
                                assert(t@ =~= seq![d] + told);
                            }
                            Some((t, e))
                        },
                    }
                },
            }
        }
    } else {
        match parse_string_body(s, pos + 1) {
            None => None,
            Some((t, e)) => {
                let mut t = t;
                let ghost told = t@;
                t.insert(0, c);
                proof {
                    assert(t@ =~= seq![s@[pos as int]] + told);
                }
                Some((t, e))
            },
        }
    }
}

/// Parses a quoted string value, after any whitespace.
fn parse_string(s: &Vec<char>, pos: usize) -> (r: Option<(Vec<char>, usize)>)
    requires
        pos <= s@.len(),
    ensures
        match r {
            Some(t) => p_string(s@, pos as int) == Some((t.0@, t.1 as int)) && pos < t.1
                <= s@.len(),
            None => p_string(s@, pos as int) is None,
        },
{
    let q = skip_ws(s, pos);
    if q < s.len() && s[q] == '"' {
        parse_string_body(s, q + 1)
    } else {
        None
    }
}

/// Parses a boolean value, after any whitespace.
fn parse_bool(s: &Vec<char>, pos: usize) -> (r: Option<(bool, usize)>)
    requires
        pos <= s@.len(),
    ensures
        match r {
            Some(t) => p_bool(s@, pos as int) == Some((t.0, t.1 as int)) && pos <= t.1 <= s@.len(),
            None => p_bool(s@, pos as int) is None,
        },
{
    proof {
        proof_literals();
    }
    let q = skip_ws(s, pos);
    match expect_lit(s, q, "true") {
        Some(e) => Some((true, e)),
        None => match expect_lit(s, q, "false") {
            Some(e) => Some((false, e)),
            None => None,
        },
    }
}

/// Parses a quoted version value, after any whitespace.
fn parse_version_val(s: &Vec<char>, pos: usize) -> (r: Option<(Version, usize)>)
    requires
        pos <= s@.len(),
    ensures
        match r {
            Some(t) => p_version(s@, pos as int) == Some((t.0@, t.1 as int)) && pos < t.1
                <= s@.len(),
            None => p_version(s@, pos as int) is None,
        },
{
    let q = skip_ws(s, pos);
    if !(q < s.len() && s[q] == '"') {
        return None;
    }
    match parse_version_at(s, q + 1) {
        None => None,
        Some((v, e)) => {
            if e < s.len() && s[e] == '"' {
                Some((v, e + 1))
            } else {
                None
            }
        },
    }
}

/// Parses the items of a nonempty string array, closing bracket included.
fn parse_str_items(s: &Vec<char>, pos: usize) -> (r: Option<(Vec<String>, usize)>)
    requires
        pos <= s@.len(),
    ensures
        match r {
            Some(t) => p_str_items(s@, pos as int) == Some((strs_view(t.0@), t.1 as int)) && pos
                < t.1 <= s@.len(),
            None => p_str_items(s@, pos as int) is None,
        },
    decreases s@.len() - pos,
{
    match parse_string(s, pos) {
        None => None,
        Some((item, e)) => {
            let item_str = chars_to_string(&item);
            let q = skip_ws(s, e);
            if q < s.len() && s[q] == ',' {
                match parse_str_items(s, q + 1) {
                    None => None,
                    Some((items, e2)) => {
                        let mut items = items;
                        let ghost iold = items@;
                        items.insert(0, item_str);
                        proof {
                            assert(strs_view(items@) =~= seq![item@] + strs_view(iold));
                        }
                        Some((items, e2))
                    },
                }
            } else if q < s.len() && s[q] == ']' {
                let mut items: Vec<String> = Vec::new();
                items.push(item_str);
                proof {
                    assert(strs_view(items@) =~= seq![item@]);
                }
                Some((items, q + 1))
            } else {
                None
            }
        },
    }
}

/// Parses a string array value, after any whitespace.
fn parse_str_array(s: &Vec<char>, pos: usize) -> (r: Option<(Vec<String>, usize)>)
    requires
        pos <= s@.len(),
    ensures
        match r {
            Some(t) => p_str_array(s@, pos as int) == Some((strs_view(t.0@), t.1 as int)) && pos
                < t.1 <= s@.len(),
            None => p_str_array(s@, pos as int) is None,
        },
{
    let q = skip_ws(s, pos);
    if q < s.len() && s[q] == '[' {
        let q1 = skip_ws(s, q + 1);
        if q1 < s.len() && s[q1] == ']' {
            let items: Vec<String> = Vec::new();
            proof {
                assert(strs_view(items@) =~= Seq::<Seq<char>>::empty());
            }
            Some((items, q1 + 1))
        } else {
            parse_str_items(s, q1)
        }
    } else {
        None
    }
}

/// Consumes whitespace, a quoted key, whitespace and a colon.
fn parse_key(s: &Vec<char>, pos: usize, key: &str) -> (r: Option<usize>)
    requires
        pos <= s@.len(),
    ensures
        match r {
            Some(e) => p_key(s@, pos as int, key@) == Some(e as int) && pos <= e <= s@.len(),
            None => p_key(s@, pos as int, key@) is None,
        },
{
    let q = skip_ws(s, pos);
    match expect_lit(s, q, key) {
        None => None,
        Some(e) => {
            let q2 = skip_ws(s, e);
            if q2 < s.len() && s[q2] == ':' {
                Some(q2 + 1)
            } else {
                None
            }
        },
    }
}

/// Consumes whitespace, a comma, then a key and its colon.
fn parse_sep_key(s: &Vec<char>, pos: usize, key: &str) -> (r: Option<usize>)
    requires
        pos <= s@.len(),
    ensures
        match r {
            Some(e) => p_sep_key(s@, pos as int, key@) == Some(e as int) && pos <= e <= s@.len(),
            None => p_sep_key(s@, pos as int, key@) is None,
        },
{
    let q = skip_ws(s, pos);
    if q < s.len() && s[q] == ',' {
        parse_key(s, q + 1, key)
    } else {
        None
    }
}

/// Parses one package record.
fn parse_package(s: &Vec<char>, pos: usize) -> (r: Option<(Package, usize)>)
    requires
        pos <= s@.len(),
    ensures
        match r {
            Some(t) => p_package(s@, pos as int) == Some((t.0@, t.1 as int)) && pos < t.1
                <= s@.len(),
            None => p_package(s@, pos as int) is None,
        },
{
    let q0 = skip_ws(s, pos);
    if !(q0 < s.len() && s[q0] == '{') {
        return None;
    }
    let v1 = match parse_key(s, q0 + 1, "\"name\"") {
        None => {
            return None;
        },
        Some(x) => x,
    };
    let (name_chars, p1) = match parse_string(s, v1) {
        None => {
            return None;
        },
        Some(x) => x,
    };
    let v2 = match parse_sep_key(s, p1, "\"features\"") {
        None => {
            return None;
        },
        Some(x) => x,
    };
    let (features, p2) = match parse_str_array(s, v2) {
        None => {
            return None;
        },
        Some(x) => x,
    };
    let v3 = match parse_sep_key(s, p2, "\"all_features\"") {
        None => {
            return None;
        },
        Some(x) => x,
    };
    let (all_features, p3) = match parse_bool(s, v3) {
        None => {
            return None;
        },
        Some(x) => x,
    };
    let v4 = match parse_sep_key(s, p3, "\"no_default_features\"") {
        None => {
            return None;
        },
        Some(x) => x,
    };
    let (no_default_features, p4) = match parse_bool(s, v4) {
        None => {
            return None;
        },
        Some(x) => x,
    };
    let v5 = match parse_sep_key(s, p4, "\"version\"") {
        None => {
            return None;
        },
        Some(x) => x,
    };
    let (version, p5) = match parse_version_val(s, v5) {
        None => {
            return None;
        },
        Some(x) => x,
    };
    let q6 = skip_ws(s, p5);
    if q6 < s.len() && s[q6] == '}' {
        let pkg = Package {
            name: chars_to_string(&name_chars),
            features,
            all_features,
            no_default_features,
            version,
        };
        proof {
            assert(p_package(s@, pos as int) matches Some(t) && t.0 == pkg@ && t.1 == q6 + 1);
        }
        Some((pkg, q6 + 1))
    } else {
        None
    }
}

/// Parses the records of a nonempty package array, closing bracket
/// included.
fn parse_pkg_items(s: &Vec<char>, pos: usize) -> (r: Option<(Vec<Package>, usize)>)
    requires
        pos <= s@.len(),
    ensures
        match r {
            Some(t) => p_pkg_items(s@, pos as int) == Some((views(t.0@), t.1 as int)) && pos < t.1
                <= s@.len(),
            None => p_pkg_items(s@, pos as int) is None,
        },
    decreases s@.len() - pos,
{
    match parse_package(s, pos) {
        None => None,
        Some((pkg, e)) => {
            let q = skip_ws(s, e);
            if q < s.len() && s[q] == ',' {
                match parse_pkg_items(s, q + 1) {
                    None => None,
                    Some((pkgs, e2)) => {
                        let mut pkgs = pkgs;
                        let ghost pold = pkgs@;
                        let ghost pv = pkg@;
                        pkgs.insert(0, pkg);
                        proof {
                            assert(views(pkgs@) =~= seq![pv] + views(pold));
                        }
                        Some((pkgs, e2))
                    },
                }
            } else if q < s.len() && s[q] == ']' {
                let ghost pv = pkg@;
                let mut pkgs: Vec<Package> = Vec::new();
                pkgs.push(pkg);
                proof {
                    assert(views(pkgs@) =~= seq![pv]);
                }
                Some((pkgs, q + 1))
            } else {
                None
            }
        },
    }
}

/// Parses a whole text as a package set in the backup format. `None`
/// exactly when the text is not an array of package records, with any
/// whitespace between tokens.
pub fn parse_packages(s: &str) -> (r: Option<Vec<Package>>)
    ensures
        match r {
            Some(v) => spec_parse_packages(s@) == Some(views(v@)),
            None => spec_parse_packages(s@) is None,
        },
{
    let chars = str_to_chars(s);
    let q0 = skip_ws(&chars, 0);
    if q0 < chars.len() && chars[q0] == '[' {
        let q1 = skip_ws(&chars, q0 + 1);
        if q1 < chars.len() && chars[q1] == ']' {
            if skip_ws(&chars, q1 + 1) == chars.len() {
                let v: Vec<Package> = Vec::new();
                proof {
                    assert(views(v@) =~= Seq::<PackageView>::empty());
                }
                Some(v)
            } else {
                None
            }
        } else {
            match parse_pkg_items(&chars, q1) {
                None => None,
                Some((pkgs, e)) => {
                    if skip_ws(&chars, e) == chars.len() {
                        Some(pkgs)
                    } else {
                        None
                    }
                },
            }
        }
    } else {
        None
    }
}

} // verus!
