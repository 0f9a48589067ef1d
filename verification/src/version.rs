//! Semantic versions as the reconciliation logic reads them: the
//! `major.minor.patch` triple with its optional pre-release identifiers,
//! ordered by semantic-version precedence, rendered as and parsed from
//! their textual form. Build metadata is not carried: a version text
//! holding `+` is rejected.

use vstd::prelude::*;

use crate::strutil::{strs_view, spec_join, lemma_join_front, lemma_slice_parts, str_to_chars,
    chars_to_string};

verus! {

/// A semantic version: the `major.minor.patch` triple and the pre-release
/// identifiers, empty for a release version.
#[derive(Debug, PartialEq, Eq, Clone)]
pub struct Version {
    pub major: u64,
    pub minor: u64,
    pub patch: u64,
    pub pre: Vec<String>,
}

/// The mathematical value of a `Version`.
pub ghost struct VersionView {
    pub major: u64,
    pub minor: u64,
    pub patch: u64,
    pub pre: Seq<Seq<char>>,
}

impl View for Version {
    type V = VersionView;

    open spec fn view(&self) -> VersionView {
        VersionView {
            major: self.major,
            minor: self.minor,
            patch: self.patch,
            pre: strs_view(self.pre@),
        }
    }
}

impl Version {
    /// A release version: the bare triple, no pre-release.
    pub fn release(major: u64, minor: u64, patch: u64) -> (r: Version)
        ensures
            r@ == (VersionView { major, minor, patch, pre: Seq::<Seq<char>>::empty() }),
    {
        let r = Version { major, minor, patch, pre: Vec::new() };
        proof {
            assert(strs_view(r.pre@) =~= Seq::<Seq<char>>::empty());
        }
        r
    }

    /// A copy of the version with the same value.
    pub fn duplicate(&self) -> (r: Version)
        ensures
            r@ == self@,
    {
        let mut pre: Vec<String> = Vec::new();
        let mut i: usize = 0;
        while i < self.pre.len()
            invariant
                0 <= i <= self.pre@.len(),
                pre@.len() == i,
                strs_view(pre@) == strs_view(self.pre@).take(i as int),
            decreases self.pre@.len() - i,
        {
            pre.push(self.pre[i].clone());
            i = i + 1;
            proof {
                assert(strs_view(pre@) =~= strs_view(self.pre@).take(i as int));
            }
        }
        proof {
            assert(strs_view(pre@) =~= strs_view(self.pre@));
        }
        Version { major: self.major, minor: self.minor, patch: self.patch, pre }
    }

    /// Strict `self < other` under semantic-version precedence.
    pub fn lt(&self, other: &Version) -> (r: bool)
        ensures
            r == version_lt(self@, other@),
    {
        if self.major != other.major {
            self.major < other.major
        } else if self.minor != other.minor {
            self.minor < other.minor
        } else if self.patch != other.patch {
            self.patch < other.patch
        } else {
            proof {
                assert(strs_view(self.pre@).len() == self.pre@.len());
                assert(strs_view(other.pre@).len() == other.pre@.len());
            }
            if self.pre.len() > 0 && other.pre.len() == 0 {
                true
            } else if self.pre.len() == 0 {
                false
            } else {
                proof {
                    assert(strs_view(self.pre@).skip(0) =~= strs_view(self.pre@));
                    assert(strs_view(other.pre@).skip(0) =~= strs_view(other.pre@));
                }
                pre_lt_from(&self.pre, &other.pre, 0)
            }
        }
    }
}

/// An identifier made of digits alone, which compares numerically.
pub open spec fn ident_numeric(s: Seq<char>) -> bool {
    s.len() > 0 && all_digits(s)
}

/// Lexicographic order on character runs, by code point; a strict prefix
/// sorts below the longer run.
pub open spec fn lex_lt(a: Seq<char>, b: Seq<char>) -> bool
    decreases a.len(),
{
    if b.len() == 0 {
        false
    } else if a.len() == 0 {
        true
    } else if a[0] != b[0] {
        (a[0] as u32) < (b[0] as u32)
    } else {
        lex_lt(a.drop_first(), b.drop_first())
    }
}

/// Numeric identifiers have no leading zeroes, so the longer run is the
/// larger number, and equal lengths compare digit by digit.
pub open spec fn num_ident_lt(a: Seq<char>, b: Seq<char>) -> bool {
    a.len() < b.len() || (a.len() == b.len() && lex_lt(a, b))
}

/// Pre-release identifier precedence: numeric identifiers compare
/// numerically and sort below alphanumeric ones; alphanumeric identifiers
/// compare lexically.
pub open spec fn ident_lt(a: Seq<char>, b: Seq<char>) -> bool {
    if ident_numeric(a) && ident_numeric(b) {
        num_ident_lt(a, b)
    } else if ident_numeric(a) {
        true
    } else if ident_numeric(b) {
        false
    } else {
        lex_lt(a, b)
    }
}

/// Pre-release precedence: identifier by identifier from the left; with
/// every shared identifier equal, the shorter run sorts below the longer.
pub open spec fn pre_lt(a: Seq<Seq<char>>, b: Seq<Seq<char>>) -> bool
    decreases a.len(),
{
    if a.len() == 0 {
        b.len() > 0
    } else if b.len() == 0 {
        false
    } else if a[0] == b[0] {
        pre_lt(a.drop_first(), b.drop_first())
    } else {
        ident_lt(a[0], b[0])
    }
}

/// Strict semantic-version precedence: the triple lexicographically; with
/// equal triples a pre-release sorts below the release, and two
/// pre-releases compare by their identifiers.
pub open spec fn version_lt(a: VersionView, b: VersionView) -> bool {
    if a.major != b.major {
        a.major < b.major
    } else if a.minor != b.minor {
        a.minor < b.minor
    } else if a.patch != b.patch {
        a.patch < b.patch
    } else if a.pre.len() > 0 && b.pre.len() == 0 {
        true
    } else if a.pre.len() == 0 {
        false
    } else {
        pre_lt(a.pre, b.pre)
    }
}

proof fn lemma_pre_lt_irrefl(p: Seq<Seq<char>>)
    ensures
        !pre_lt(p, p),
    decreases p.len(),
{
    if p.len() > 0 {
        lemma_pre_lt_irrefl(p.drop_first());
    }
}

/// No version is strictly below itself.
pub proof fn lemma_version_lt_irrefl(v: VersionView)
    ensures
        !version_lt(v, v),
{
    lemma_pre_lt_irrefl(v.pre);
}

/// Compares character runs lexically from position `i` on.
fn lex_lt_from(a: &Vec<char>, b: &Vec<char>, i: usize) -> (r: bool)
    requires
        i <= a@.len(),
        i <= b@.len(),
    ensures
        r == lex_lt(a@.skip(i as int), b@.skip(i as int)),
    decreases a@.len() - i,
{
    proof {
        assert(a@.skip(i as int).len() == a@.len() - i);
        assert(b@.skip(i as int).len() == b@.len() - i);
    }
    if i >= b.len() {
        false
    } else if i >= a.len() {
        true
    } else {
        proof {
            assert(a@.skip(i as int)[0] == a@[i as int]);
            assert(b@.skip(i as int)[0] == b@[i as int]);
        }
        if a[i] != b[i] {
            (a[i] as u32) < (b[i] as u32)
        } else {
            proof {
                assert(a@.skip(i as int).drop_first() =~= a@.skip(i + 1));
                assert(b@.skip(i as int).drop_first() =~= b@.skip(i + 1));
            }
            lex_lt_from(a, b, i + 1)
        }
    }
}

/// Whether a character run is a nonempty run of digits.
fn ident_numeric_exec(v: &Vec<char>) -> (r: bool)
    ensures
        r == ident_numeric(v@),
{
    if v.len() == 0 {
        return false;
    }
    let mut i: usize = 0;
    while i < v.len()
        invariant
            0 <= i <= v@.len(),
            forall|k: int| 0 <= k < i ==> is_digit(v@[k]),
        decreases v@.len() - i,
    {
        match digit_of_exec(v[i]) {
            None => {
                return false;
            },
            Some(_) => {
                i = i + 1;
            },
        }
    }
    true
}

/// Compares two pre-release identifiers by precedence.
fn ident_lt_exec(a: &String, b: &String) -> (r: bool)
    ensures
        r == ident_lt(a@, b@),
{
    let av = str_to_chars(a.as_str());
    let bv = str_to_chars(b.as_str());
    let an = ident_numeric_exec(&av);
    let bn = ident_numeric_exec(&bv);
    proof {
        assert(av@.skip(0) =~= a@);
        assert(bv@.skip(0) =~= b@);
    }
    if an && bn {
        if av.len() != bv.len() {
            av.len() < bv.len()
        } else {
            lex_lt_from(&av, &bv, 0)
        }
    } else if an {
        true
    } else if bn {
        false
    } else {
        lex_lt_from(&av, &bv, 0)
    }
}

/// Compares pre-release identifier runs by precedence, from index `i` on.
fn pre_lt_from(a: &Vec<String>, b: &Vec<String>, i: usize) -> (r: bool)
    requires
        i <= a@.len(),
        i <= b@.len(),
    ensures
        r == pre_lt(strs_view(a@).skip(i as int), strs_view(b@).skip(i as int)),
    decreases a@.len() - i,
{
    proof {
        assert(strs_view(a@).skip(i as int).len() == a@.len() - i);
        assert(strs_view(b@).skip(i as int).len() == b@.len() - i);
    }
    if i >= a.len() {
        i < b.len()
    } else if i >= b.len() {
        false
    } else {
        proof {
            assert(strs_view(a@).skip(i as int)[0] == a@[i as int]@);
            assert(strs_view(b@).skip(i as int)[0] == b@[i as int]@);
        }
        if crate::strutil::str_eq(a[i].as_str(), b[i].as_str()) {
            proof {
                assert(strs_view(a@).skip(i as int).drop_first() =~= strs_view(a@).skip(i + 1));
                assert(strs_view(b@).skip(i as int).drop_first() =~= strs_view(b@).skip(i + 1));
            }
            pre_lt_from(a, b, i + 1)
        } else {
            ident_lt_exec(&a[i], &b[i])
        }
    }
}

/// The decimal digit character for a value below ten.
pub open spec fn digit_char(d: int) -> char {
    if d == 0 { '0' }
    else if d == 1 { '1' }
    else if d == 2 { '2' }
    else if d == 3 { '3' }
    else if d == 4 { '4' }
    else if d == 5 { '5' }
    else if d == 6 { '6' }
    else if d == 7 { '7' }
    else if d == 8 { '8' }
    else { '9' }
}

/// The value of a decimal digit character, or `None` for any other character.
pub open spec fn digit_of(c: char) -> Option<int> {
    if c == '0' { Some(0int) }
    else if c == '1' { Some(1int) }
    else if c == '2' { Some(2int) }
    else if c == '3' { Some(3int) }
    else if c == '4' { Some(4int) }
    else if c == '5' { Some(5int) }
    else if c == '6' { Some(6int) }
    else if c == '7' { Some(7int) }
    else if c == '8' { Some(8int) }
    else if c == '9' { Some(9int) }
    else { None }
}

pub open spec fn is_digit(c: char) -> bool {
    digit_of(c) is Some
}

/// The characters pre-release identifiers are made of: digits, ASCII
/// letters and the hyphen.
pub open spec fn is_ident_char(c: char) -> bool {
    is_digit(c) || (65 <= c as u32 <= 90) || (97 <= c as u32 <= 122) || c == '-'
}

/// A numeric identifier must not have a leading zero.
pub open spec fn ident_ok(t: Seq<char>) -> bool {
    !(ident_numeric(t) && t.len() > 1 && t[0] == '0')
}

/// A well-formed pre-release identifier: nonempty, identifier characters
/// only, and no leading zero when numeric.
pub open spec fn pre_ident_wf(t: Seq<char>) -> bool {
    t.len() > 0 && (forall|i: int| 0 <= i < t.len() ==> is_ident_char(#[trigger] t[i]))
        && ident_ok(t)
}

/// A well-formed version: every pre-release identifier is well-formed.
/// Exactly the versions the textual form can carry.
pub open spec fn version_wf(v: VersionView) -> bool {
    forall|i: int| 0 <= i < v.pre.len() ==> pre_ident_wf((#[trigger] v.pre[i]))
}

/// The decimal rendering of a natural number, most significant digit first.
pub open spec fn dec_digits(n: nat) -> Seq<char>
    decreases n,
{
    if n < 10 {
        seq![digit_char(n as int)]
    } else {
        dec_digits(n / 10).push(digit_char((n % 10) as int))
    }
}

/// The rendering of a version: `major.minor.patch` in decimal, then for a
/// pre-release a hyphen and the identifiers joined with dots.
pub open spec fn version_chars(v: VersionView) -> Seq<char> {
    dec_digits(v.major as nat) + seq!['.'] + dec_digits(v.minor as nat) + seq!['.'] + dec_digits(
        v.patch as nat,
    ) + if v.pre.len() == 0 {
        Seq::<char>::empty()
    } else {
        seq!['-'] + spec_join(v.pre, seq!['.'])
    }
}

/// The value of a string of decimal digit characters (0 when empty).
pub open spec fn dec_val(s: Seq<char>) -> nat
    decreases s.len(),
{
    if s.len() == 0 {
        0
    } else {
        dec_val(s.drop_last()) * 10 + match digit_of(s.last()) {
            Some(d) => d as nat,
            None => 0,
        }
    }
}

pub open spec fn all_digits(s: Seq<char>) -> bool {
    forall|i: int| 0 <= i < s.len() ==> is_digit(s[i])
}

/// The first position at or after `pos` holding a non-digit (or the end).
pub open spec fn num_end(s: Seq<char>, pos: int) -> int
    decreases s.len() - pos,
{
    if 0 <= pos < s.len() && is_digit(s[pos]) {
        num_end(s, pos + 1)
    } else {
        pos
    }
}

/// Parses the maximal run of digits starting at `pos`: its value and the
/// position after it. `None` when no digit starts there or the value
/// does not fit in a `u64`.
pub open spec fn spec_parse_num(s: Seq<char>, pos: int) -> Option<(u64, int)> {
    let e = num_end(s, pos);
    if e == pos {
        None
    } else if dec_val(s.subrange(pos, e)) > u64::MAX {
        None
    } else {
        Some((dec_val(s.subrange(pos, e)) as u64, e))
    }
}

/// The first position at or after `pos` holding a non-identifier
/// character (or the end).
pub open spec fn ident_end(s: Seq<char>, pos: int) -> int
    decreases s.len() - pos,
{
    if 0 <= pos < s.len() && is_ident_char(s[pos]) {
        ident_end(s, pos + 1)
    } else {
        pos
    }
}

/// Parses the maximal identifier run starting at `pos`: `None` when no
/// identifier character starts there or the run is a numeric identifier
/// with a leading zero.
pub open spec fn spec_parse_ident(s: Seq<char>, pos: int) -> Option<(Seq<char>, int)> {
    let e = ident_end(s, pos);
    if e == pos {
        None
    } else if !ident_ok(s.subrange(pos, e)) {
        None
    } else {
        Some((s.subrange(pos, e), e))
    }
}

/// Parses dot-separated pre-release identifiers starting at `pos`.
pub open spec fn spec_parse_pre(s: Seq<char>, pos: int) -> Option<(Seq<Seq<char>>, int)>
    decreases s.len() - pos,
    when 0 <= pos <= s.len()
    via spec_parse_pre_dec
{
    match spec_parse_ident(s, pos) {
        None => None,
        Some((id, e)) => if e < s.len() && s[e] == '.' {
            match spec_parse_pre(s, e + 1) {
                None => None,
                Some((ids, e2)) => Some((seq![id] + ids, e2)),
            }
        } else {
            Some((seq![id], e))
        },
    }
}

#[via_fn]
proof fn spec_parse_pre_dec(s: Seq<char>, pos: int) {
    lemma_ident_end(s, pos);
}

/// Parses the maximal version at `pos`: the dotted triple, then the
/// pre-release identifiers when a hyphen follows the patch number.
pub open spec fn spec_parse_version_at(s: Seq<char>, pos: int) -> Option<(VersionView, int)> {
    match spec_parse_num(s, pos) {
        None => None,
        Some((major, p1)) => if p1 < s.len() && s[p1] == '.' {
            match spec_parse_num(s, p1 + 1) {
                None => None,
                Some((minor, p2)) => if p2 < s.len() && s[p2] == '.' {
                    match spec_parse_num(s, p2 + 1) {
                        None => None,
                        Some((patch, p3)) => if p3 < s.len() && s[p3] == '-' {
                            match spec_parse_pre(s, p3 + 1) {
                                None => None,
                                Some((pre, e)) => Some((VersionView { major, minor, patch, pre },
                                    e)),
                            }
                        } else {
                            Some(
                                (
                                    VersionView {
                                        major,
                                        minor,
                                        patch,
                                        pre: Seq::<Seq<char>>::empty(),
                                    },
                                    p3,
                                ),
                            )
                        },
                    }
                } else {
                    None
                },
            }
        } else {
            None
        },
    }
}

/// Parses a whole string as a version; `None` unless it is exactly one
/// well-formed version.
pub open spec fn spec_parse_version(s: Seq<char>) -> Option<VersionView> {
    match spec_parse_version_at(s, 0) {
        None => None,
        Some((v, e)) => if e == s.len() {
            Some(v)
        } else {
            None
        },
    }
}

/// Parsed pre-release identifiers end after their starting position.
pub proof fn lemma_parse_pre_bounds(s: Seq<char>, pos: int)
    requires
        0 <= pos <= s.len(),
    ensures
        match spec_parse_pre(s, pos) {
            Some(t) => pos < t.1 <= s.len(),
            None => true,
        },
    decreases s.len() - pos,
{
    lemma_ident_end(s, pos);
    match spec_parse_ident(s, pos) {
        None => {},
        Some((id, e)) => {
            if e < s.len() && s[e] == '.' {
                lemma_parse_pre_bounds(s, e + 1);
            }
        },
    }
}

/// A parsed version ends after its starting position.
pub proof fn lemma_parse_version_at_bounds(s: Seq<char>, pos: int)
    requires
        0 <= pos <= s.len(),
    ensures
        match spec_parse_version_at(s, pos) {
            Some(t) => pos < t.1 <= s.len(),
            None => true,
        },
{
    lemma_num_end(s, pos);
    match spec_parse_num(s, pos) {
        None => {},
        Some((major, p1)) => {
            if p1 < s.len() && s[p1] == '.' {
                lemma_num_end(s, p1 + 1);
                match spec_parse_num(s, p1 + 1) {
                    None => {},
                    Some((minor, p2)) => {
                        if p2 < s.len() && s[p2] == '.' {
                            lemma_num_end(s, p2 + 1);
                            match spec_parse_num(s, p2 + 1) {
                                None => {},
                                Some((patch, p3)) => {
                                    if p3 < s.len() && s[p3] == '-' {
                                        lemma_parse_pre_bounds(s, p3 + 1);
                                    }
                                },
                            }
                        }
                    },
                }
            }
        },
    }
}

/// The digit character for `d`.
fn digit_char_exec(d: u64) -> (c: char)
    requires
        d < 10,
    ensures
        c == digit_char(d as int),
{
    match d {
        0 => '0',
        1 => '1',
        2 => '2',
        3 => '3',
        4 => '4',
        5 => '5',
        6 => '6',
        7 => '7',
        8 => '8',
        _ => '9',
    }
}

/// The value of a digit character, if it is one.
fn digit_of_exec(c: char) -> (r: Option<u64>)
    ensures
        match r {
            Some(d) => digit_of(c) == Some(d as int),
            None => digit_of(c) is None,
        },
{
    match c {
        '0' => Some(0),
        '1' => Some(1),
        '2' => Some(2),
        '3' => Some(3),
        '4' => Some(4),
        '5' => Some(5),
        '6' => Some(6),
        '7' => Some(7),
        '8' => Some(8),
        '9' => Some(9),
        _ => None,
    }
}

/// Whether `c` may stand in a pre-release identifier.
fn is_ident_char_exec(c: char) -> (r: bool)
    ensures
        r == is_ident_char(c),
{
    match digit_of_exec(c) {
        Some(_) => true,
        None => {
            let v = c as u32;
            (65 <= v && v <= 90) || (97 <= v && v <= 122) || c == '-'
        },
    }
}

/// Every position from `pos` to `num_end(s, pos)` holds a digit, and the
/// run ends at the end of the string or at a non-digit.
pub proof fn lemma_num_end(s: Seq<char>, pos: int)
    requires
        0 <= pos <= s.len(),
    ensures
        pos <= num_end(s, pos) <= s.len(),
        forall|i: int| pos <= i < num_end(s, pos) ==> is_digit(s[i]),
        num_end(s, pos) == s.len() || !is_digit(s[num_end(s, pos)]),
    decreases s.len() - pos,
{
    if pos < s.len() && is_digit(s[pos]) {
        lemma_num_end(s, pos + 1);
    }
}

/// `num_end` is determined by where the digit run ends.
pub proof fn lemma_num_end_char(s: Seq<char>, pos: int, e: int)
    requires
        0 <= pos <= e <= s.len(),
        forall|i: int| pos <= i < e ==> is_digit(s[i]),
        e == s.len() || !is_digit(s[e]),
    ensures
        num_end(s, pos) == e,
    decreases e - pos,
{
    if pos < e {
        lemma_num_end_char(s, pos + 1, e);
    }
}

/// Every position up to `ident_end(s, pos)` holds an identifier
/// character, and the run ends at the end or at another character.
pub proof fn lemma_ident_end(s: Seq<char>, pos: int)
    requires
        0 <= pos <= s.len(),
    ensures
        pos <= ident_end(s, pos) <= s.len(),
        forall|i: int| pos <= i < ident_end(s, pos) ==> is_ident_char(s[i]),
        ident_end(s, pos) == s.len() || !is_ident_char(s[ident_end(s, pos)]),
    decreases s.len() - pos,
{
    if pos < s.len() && is_ident_char(s[pos]) {
        lemma_ident_end(s, pos + 1);
    }
}

/// `ident_end` is determined by where the identifier run ends.
pub proof fn lemma_ident_end_char(s: Seq<char>, pos: int, e: int)
    requires
        0 <= pos <= e <= s.len(),
        forall|i: int| pos <= i < e ==> is_ident_char(s[i]),
        e == s.len() || !is_ident_char(s[e]),
    ensures
        ident_end(s, pos) == e,
    decreases e - pos,
{
    if pos < e {
        lemma_ident_end_char(s, pos + 1, e);
    }
}

/// The decimal rendering of `n` is a nonempty digit run whose value is `n`.
pub proof fn lemma_dec_digits(n: nat)
    ensures
        dec_digits(n).len() >= 1,
        all_digits(dec_digits(n)),
        dec_val(dec_digits(n)) == n,
    decreases n,
{
    if n < 10 {
        let s = dec_digits(n);
        assert(s.drop_last() =~= Seq::<char>::empty());
        assert(dec_val(s) == dec_val(s.drop_last()) * 10 + n);
    } else {
        lemma_dec_digits(n / 10);
        let d = dec_digits(n / 10);
        let whole = d.push(digit_char((n % 10) as int));
        assert(whole.drop_last() =~= d);
        assert(dec_val(whole) == dec_val(d) * 10 + n % 10);
    }
}

/// Renders a number in decimal, most significant digit first.
pub fn u64_digits(n: u64) -> (r: Vec<char>)
    ensures
        r@ == dec_digits(n as nat),
    decreases n,
{
    if n < 10 {
        let mut v: Vec<char> = Vec::new();
        v.push(digit_char_exec(n));
        assert(v@ =~= dec_digits(n as nat));
        v
    } else {
        let mut v = u64_digits(n / 10);
        v.push(digit_char_exec(n % 10));
        v
    }
}

/// Parses the maximal digit run starting at `pos`.
pub fn parse_num(s: &Vec<char>, pos: usize) -> (r: Option<(u64, usize)>)
    requires
        pos <= s@.len(),
    ensures
        match r {
            Some((n, e)) => spec_parse_num(s@, pos as int) == Some((n, e as int))
                && pos < e <= s@.len(),
            None => spec_parse_num(s@, pos as int) is None,
        },
{
    let ghost sq = s@;
    let mut i: usize = pos;
    let mut acc: u64 = 0;
    let mut overflow = false;
    proof {
        assert(sq.subrange(pos as int, pos as int) =~= Seq::<char>::empty());
    }
    loop
        invariant
            pos <= i <= sq.len(),
            s@ == sq,
            num_end(sq, pos as int) == num_end(sq, i as int),
            !overflow ==> acc == dec_val(sq.subrange(pos as int, i as int)),
            overflow ==> dec_val(sq.subrange(pos as int, i as int)) > u64::MAX,
        ensures
            pos <= i <= sq.len(),
            s@ == sq,
            num_end(sq, pos as int) == i as int,
            !overflow ==> acc == dec_val(sq.subrange(pos as int, i as int)),
            overflow ==> dec_val(sq.subrange(pos as int, i as int)) > u64::MAX,
        decreases sq.len() - i,
    {
        if i >= s.len() {
            proof {
                lemma_num_end_char(sq, i as int, i as int);
            }
            break;
        }
        let d_opt = digit_of_exec(s[i]);
        match d_opt {
            None => {
                proof {
                    lemma_num_end_char(sq, i as int, i as int);
                }
                break;
            },
            Some(d) => {
                proof {
                    let a = sq.subrange(pos as int, i as int);
                    let b = sq.subrange(pos as int, i + 1 as int);
                    assert(b.drop_last() =~= a);
                    assert(dec_val(b) == dec_val(a) * 10 + d);
                }
                if overflow {
                    // the run's value only grows with further digits
                } else {
                    match acc.checked_mul(10) {
                        None => {
                            overflow = true;
                        },
                        Some(t) => {
                            match t.checked_add(d) {
                                None => {
                                    overflow = true;
                                },
                                Some(v) => {
                                    acc = v;
                                },
                            }
                        },
                    }
                }
                i = i + 1;
            },
        }
    }
    if i == pos {
        None
    } else if overflow {
        None
    } else {
        Some((acc, i))
    }
}

/// Parses the maximal identifier run starting at `pos`.
fn parse_ident(s: &Vec<char>, pos: usize) -> (r: Option<(Vec<char>, usize)>)
    requires
        pos <= s@.len(),
    ensures
        match r {
            Some(t) => spec_parse_ident(s@, pos as int) == Some((t.0@, t.1 as int)) && pos < t.1
                <= s@.len(),
            None => spec_parse_ident(s@, pos as int) is None,
        },
{
    let ghost sq = s@;
    let mut i: usize = pos;
    loop
        invariant
            pos <= i <= sq.len(),
            s@ == sq,
            ident_end(sq, pos as int) == ident_end(sq, i as int),
        ensures
            pos <= i <= sq.len(),
            s@ == sq,
            ident_end(sq, pos as int) == i as int,
        decreases sq.len() - i,
    {
        if i >= s.len() {
            proof {
                lemma_ident_end_char(sq, i as int, i as int);
            }
            break;
        }
        if !is_ident_char_exec(s[i]) {
            proof {
                lemma_ident_end_char(sq, i as int, i as int);
            }
            break;
        }
        i = i + 1;
    }
    if i == pos {
        return None;
    }
    let mut t: Vec<char> = Vec::new();
    let mut k: usize = pos;
    while k < i
        invariant
            pos <= k <= i <= sq.len(),
            s@ == sq,
            t@ == sq.subrange(pos as int, k as int),
        decreases i - k,
    {
        t.push(s[k]);
        k = k + 1;
        proof {
            assert(t@ =~= sq.subrange(pos as int, k as int));
        }
    }
    if t[0] == '0' && t.len() > 1 {
        let numeric = ident_numeric_exec(&t);
        if numeric {
            proof {
                assert(!ident_ok(sq.subrange(pos as int, i as int)));
            }
            return None;
        }
    }
    proof {
        assert(ident_ok(sq.subrange(pos as int, i as int)));
    }
    Some((t, i))
}

/// Parses dot-separated pre-release identifiers starting at `pos`.
fn parse_pre_at(s: &Vec<char>, pos: usize) -> (r: Option<(Vec<String>, usize)>)
    requires
        pos <= s@.len(),
    ensures
        match r {
            Some(t) => spec_parse_pre(s@, pos as int) == Some((strs_view(t.0@), t.1 as int))
                && pos < t.1 <= s@.len(),
            None => spec_parse_pre(s@, pos as int) is None,
        },
    decreases s@.len() - pos,
{
    match parse_ident(s, pos) {
        None => None,
        Some((id, e)) => {
            let id_str = chars_to_string(&id);
            if e < s.len() && s[e] == '.' {
                match parse_pre_at(s, e + 1) {
                    None => None,
                    Some((ids, e2)) => {
                        let mut ids = ids;
                        let ghost iold = ids@;
                        ids.insert(0, id_str);
                        proof {
                            assert(strs_view(ids@) =~= seq![id@] + strs_view(iold));
                        }
                        Some((ids, e2))
                    },
                }
            } else {
                let mut ids: Vec<String> = Vec::new();
                ids.push(id_str);
                proof {
                    assert(strs_view(ids@) =~= seq![id@]);
                }
                Some((ids, e))
            }
        },
    }
}

/// Parses the maximal version at `pos`.
pub fn parse_version_at(s: &Vec<char>, pos: usize) -> (r: Option<(Version, usize)>)
    requires
        pos <= s@.len(),
    ensures
        match r {
            Some(t) => spec_parse_version_at(s@, pos as int) == Some((t.0@, t.1 as int)) && pos
                < t.1 <= s@.len(),
            None => spec_parse_version_at(s@, pos as int) is None,
        },
{
    let (major, p1) = match parse_num(s, pos) {
        None => {
            return None;
        },
        Some(x) => x,
    };
    if !(p1 < s.len() && s[p1] == '.') {
        return None;
    }
    let (minor, p2) = match parse_num(s, p1 + 1) {
        None => {
            return None;
        },
        Some(x) => x,
    };
    if !(p2 < s.len() && s[p2] == '.') {
        return None;
    }
    let (patch, p3) = match parse_num(s, p2 + 1) {
        None => {
            return None;
        },
        Some(x) => x,
    };
    if p3 < s.len() && s[p3] == '-' {
        match parse_pre_at(s, p3 + 1) {
            None => None,
            Some((pre, e)) => Some((Version { major, minor, patch, pre }, e)),
        }
    } else {
        let v = Version::release(major, minor, patch);
        Some((Version { major, minor, patch, pre: v.pre }, p3))
    }
}

/// Parses a whole character string as a version.
pub fn parse_version_chars(s: &Vec<char>) -> (r: Option<Version>)
    ensures
        match r {
            Some(v) => spec_parse_version(s@) == Some(v@),
            None => spec_parse_version(s@) is None,
        },
{
    match parse_version_at(s, 0) {
        None => None,
        Some((v, e)) => {
            if e == s.len() {
                Some(v)
            } else {
                None
            }
        },
    }
}

/// Parses a string as a version.
pub fn parse_version(s: &str) -> (r: Option<Version>)
    ensures
        match r {
            Some(v) => spec_parse_version(s@) == Some(v@),
            None => spec_parse_version(s@) is None,
        },
{
    let chars = str_to_chars(s);
    parse_version_chars(&chars)
}

/// Renders a version in its textual form.
pub fn version_to_chars(v: &Version) -> (r: Vec<char>)
    ensures
        r@ == version_chars(v@),
{
    let mut out = u64_digits(v.major);
    out.push('.');
    let mut minor = u64_digits(v.minor);
    out.append(&mut minor);
    out.push('.');
    let mut patch = u64_digits(v.patch);
    out.append(&mut patch);
    if v.pre.len() > 0 {
        out.push('-');
        let mut pre = crate::strutil::join_strs(&v.pre, ".");
        out.append(&mut pre);
        proof {
            reveal_strlit(".");
            assert("."@ =~= seq!['.']);
            assert(out@ =~= version_chars(v@));
        }
    } else {
        proof {
            assert(out@ =~= version_chars(v@));
        }
    }
    out
}

/// Parsing a digit run that stands, bounded, inside a string yields its value.
pub proof fn lemma_parse_num_of_digits(s: Seq<char>, pos: int, d: Seq<char>, n: u64)
    requires
        0 <= pos,
        pos + d.len() <= s.len(),
        s.subrange(pos, pos + d.len()) == d,
        d.len() >= 1,
        all_digits(d),
        dec_val(d) == n,
        pos + d.len() == s.len() || !is_digit(s[pos + d.len()]),
    ensures
        spec_parse_num(s, pos) == Some((n, pos + d.len())),
{
    assert forall|i: int| pos <= i < pos + d.len() implies is_digit(#[trigger] s[i]) by {
        assert(s[i] == s.subrange(pos, pos + d.len() as int)[i - pos]);
        assert(is_digit(d[i - pos]));
    }
    lemma_num_end_char(s, pos, pos + d.len());
}

/// Parsing an identifier that stands, bounded, inside a string yields it.
proof fn lemma_parse_ident_of(s: Seq<char>, pos: int, t: Seq<char>)
    requires
        0 <= pos,
        pos + t.len() <= s.len(),
        s.subrange(pos, pos + t.len()) == t,
        pre_ident_wf(t),
        pos + t.len() == s.len() || !is_ident_char(s[pos + t.len()]),
    ensures
        spec_parse_ident(s, pos) == Some((t, pos + t.len())),
{
    assert forall|i: int| pos <= i < pos + t.len() implies is_ident_char(#[trigger] s[i]) by {
        assert(s[i] == s.subrange(pos, pos + t.len() as int)[i - pos]);
        assert(is_ident_char(t[i - pos]));
    }
    lemma_ident_end_char(s, pos, pos + t.len());
}

/// Parsing rendered pre-release identifiers, bounded on the right, yields
/// them back.
proof fn lemma_pre_parse(s: Seq<char>, pos: int, pre: Seq<Seq<char>>)
    requires
        pre.len() >= 1,
        forall|i: int| 0 <= i < pre.len() ==> pre_ident_wf((#[trigger] pre[i])),
        0 <= pos,
        pos + spec_join(pre, seq!['.']).len() <= s.len(),
        s.subrange(pos, pos + spec_join(pre, seq!['.']).len()) == spec_join(pre, seq!['.']),
        pos + spec_join(pre, seq!['.']).len() == s.len() || (!is_ident_char(
            s[pos + spec_join(pre, seq!['.']).len()],
        ) && s[pos + spec_join(pre, seq!['.']).len()] != '.'),
    ensures
        spec_parse_pre(s, pos) == Some((pre, pos + spec_join(pre, seq!['.']).len())),
    decreases pre.len(),
{
    lemma_join_front(pre, seq!['.']);
    let first = pre[0];
    assert(!is_ident_char('.'));
    if pre.len() == 1 {
        assert(spec_join(pre, seq!['.']) == first);
        lemma_parse_ident_of(s, pos, first);
        let e = pos + first.len() as int;
        assert(seq![first] =~= pre);
    } else {
        let rest = pre.drop_first();
        let rest_join = spec_join(rest, seq!['.']);
        assert(spec_join(pre, seq!['.']) == first + seq!['.'] + rest_join);
        assert(spec_join(pre, seq!['.']) =~= first + (seq!['.'] + rest_join));
        lemma_slice_parts(s, pos, first, seq!['.'] + rest_join);
        let e = pos + first.len() as int;
        lemma_slice_parts(s, e, seq!['.'], rest_join);
        assert(s[e] == s.subrange(e, e + 1)[0]);
        assert(s[e] == '.');
        lemma_parse_ident_of(s, pos, first);
        assert(forall|i: int| 0 <= i < rest.len() ==> pre_ident_wf((#[trigger] rest[i])));
        lemma_pre_parse(s, e + 1, rest);
        assert(seq![first] + rest =~= pre);
    }
}

/// Parsing a rendered version, bounded on the right, yields it back.
pub proof fn lemma_version_chars_parse(s: Seq<char>, pos: int, v: VersionView)
    requires
        version_wf(v),
        0 <= pos,
        pos + version_chars(v).len() <= s.len(),
        s.subrange(pos, pos + version_chars(v).len()) == version_chars(v),
        pos + version_chars(v).len() == s.len() || (!is_ident_char(
            s[pos + version_chars(v).len()],
        ) && s[pos + version_chars(v).len()] != '.'),
    ensures
        spec_parse_version_at(s, pos) == Some((v, pos + version_chars(v).len())),
{
    let a = dec_digits(v.major as nat);
    let b = dec_digits(v.minor as nat);
    let c = dec_digits(v.patch as nat);
    lemma_dec_digits(v.major as nat);
    lemma_dec_digits(v.minor as nat);
    lemma_dec_digits(v.patch as nat);
    let vc = version_chars(v);
    let tail = if v.pre.len() == 0 {
        Seq::<char>::empty()
    } else {
        seq!['-'] + spec_join(v.pre, seq!['.'])
    };
    assert(vc =~= a + (seq!['.'] + (b + (seq!['.'] + (c + tail)))));
    lemma_slice_parts(s, pos, a, seq!['.'] + (b + (seq!['.'] + (c + tail))));
    let q1 = pos + a.len() as int;
    lemma_slice_parts(s, q1, seq!['.'], b + (seq!['.'] + (c + tail)));
    assert(s[q1] == s.subrange(q1, q1 + 1)[0]);
    assert(s[q1] == '.');
    let q2 = q1 + 1;
    lemma_slice_parts(s, q2, b, seq!['.'] + (c + tail));
    let q3 = q2 + b.len() as int;
    lemma_slice_parts(s, q3, seq!['.'], c + tail);
    assert(s[q3] == s.subrange(q3, q3 + 1)[0]);
    assert(s[q3] == '.');
    let q4 = q3 + 1;
    lemma_slice_parts(s, q4, c, tail);
    let q5 = q4 + c.len() as int;
    assert(!is_digit('.'));
    assert(!is_digit('-'));
    lemma_parse_num_of_digits(s, pos, a, v.major);
    lemma_parse_num_of_digits(s, q2, b, v.minor);
    if v.pre.len() == 0 {
        assert(vc =~= a + seq!['.'] + b + seq!['.'] + c);
        assert(q5 == pos + vc.len());
        if q5 < s.len() {
            assert(!is_ident_char(s[q5]));
            assert(is_digit(s[q5]) ==> is_ident_char(s[q5]));
            assert(!is_digit(s[q5]));
            assert(is_ident_char('-'));
            assert(s[q5] != '-');
        }
        lemma_parse_num_of_digits(s, q4, c, v.patch);
        assert(v.pre =~= Seq::<Seq<char>>::empty());
        assert(spec_parse_version_at(s, pos) == Some(
            (VersionView { major: v.major, minor: v.minor, patch: v.patch, pre: v.pre }, q5),
        ));
        assert(VersionView { major: v.major, minor: v.minor, patch: v.patch, pre: v.pre } == v);
    } else {
        assert(s[q5] == s.subrange(q5, q5 + tail.len())[0]);
        assert(s[q5] == '-');
        lemma_parse_num_of_digits(s, q4, c, v.patch);
        assert(tail =~= seq!['-'] + spec_join(v.pre, seq!['.']));
        lemma_slice_parts(s, q5, seq!['-'], spec_join(v.pre, seq!['.']));
        lemma_pre_parse(s, q5 + 1, v.pre);
        assert(q5 + 1 + spec_join(v.pre, seq!['.']).len() == pos + vc.len());
        assert(spec_parse_version_at(s, pos) == Some(
            (
                VersionView { major: v.major, minor: v.minor, patch: v.patch, pre: v.pre },
                pos + vc.len(),
            ),
        ));
        assert(VersionView { major: v.major, minor: v.minor, patch: v.patch, pre: v.pre } == v);
    }
}

/// Round trip: rendering a well-formed version and parsing the result
/// yields it back.
pub proof fn lemma_version_roundtrip(v: VersionView)
    requires
        version_wf(v),
    ensures
        spec_parse_version(version_chars(v)) == Some(v),
{
    let s = version_chars(v);
    assert(s.subrange(0, s.len() as int) =~= s);
    lemma_version_chars_parse(s, 0, v);
}

} // verus!
