//! Debian versions: `[epoch:]upstream[-revision]`, and their total order.
//!
//! The order compares the epochs as integers, then the upstream parts, then the
//! revisions. Two version strings are compared run by run, alternating between
//! runs of non-digits (compared character by character, `~` before the end of
//! the run, the end before letters, letters before other characters) and runs
//! of digits (compared as numbers). This is modelled by mapping each string to
//! a sort key of integers, compared lexicographically with missing positions
//! read as zero.

use vstd::prelude::*;
use crate::text::{is_digit, is_alpha, char_is_digit, char_is_alpha, chars_of};
use crate::PakigeParseError;
use std::str::FromStr;

verus! {

/// The weight of a non-digit character within a run.
pub open spec fn char_weight(c: char) -> int {
    if is_alpha(c) {
        c as u32 as int
    } else if c == '~' {
        -1
    } else {
        c as u32 as int + 256
    }
}

/// The index just past the run of digits that starts at `i`.
pub open spec fn run_end(s: Seq<char>, i: int) -> int
    decreases s.len() - i,
{
    if 0 <= i < s.len() && is_digit(s[i]) {
        run_end(s, i + 1)
    } else {
        i
    }
}

/// The index just past the run of `0` characters that starts at `i`.
pub open spec fn zero_end(s: Seq<char>, i: int) -> int
    decreases s.len() - i,
{
    if 0 <= i < s.len() && s[i] == '0' {
        zero_end(s, i + 1)
    } else {
        i
    }
}

pub open spec fn digit_at(s: Seq<char>, i: int) -> bool {
    0 <= i < s.len() && is_digit(s[i])
}

/// The sort key of `s[i..]`, where `i` starts a non-digit run.
///
/// A non-digit run contributes the weights of its characters and a `0` marking
/// its end; a digit run contributes the count of its significant digits and then
/// those digits, so that longer numbers sort after shorter ones.
pub open spec fn key_from(s: Seq<char>, i: int) -> Seq<int>
    decreases s.len() - i, if digit_at(s, i) { 3int } else { 0int },
{
    if i < 0 || i >= s.len() {
        seq![]
    } else if !is_digit(s[i]) {
        seq![char_weight(s[i])].add(key_from(s, i + 1))
    } else {
        seq![0int, run_end(s, i) - zero_end(s, i)].add(zeros_from(s, i))
    }
}

/// The rest of the key from inside the leading zeros of a digit run.
pub open spec fn zeros_from(s: Seq<char>, i: int) -> Seq<int>
    decreases s.len() - i, 2int,
{
    if 0 <= i < s.len() && s[i] == '0' {
        zeros_from(s, i + 1)
    } else {
        digits_from(s, i)
    }
}

/// The rest of the key from inside the significant digits of a digit run.
pub open spec fn digits_from(s: Seq<char>, i: int) -> Seq<int>
    decreases s.len() - i, 1int,
{
    if 0 <= i < s.len() && is_digit(s[i]) {
        seq![s[i] as int - '0' as int].add(digits_from(s, i + 1))
    } else {
        key_from(s, i)
    }
}

pub open spec fn version_key(s: Seq<char>) -> Seq<int> {
    key_from(s, 0)
}

pub open spec fn at_or_zero(a: Seq<int>, i: int) -> int {
    if 0 <= i < a.len() {
        a[i]
    } else {
        0
    }
}

/// Lexicographic comparison of `a[i..]` and `b[i..]`, missing positions read as zero.
pub open spec fn lex_cmp_from(a: Seq<int>, b: Seq<int>, i: int) -> int
    decreases a.len() + b.len() - i,
{
    if i < 0 || (i >= a.len() && i >= b.len()) {
        0
    } else if at_or_zero(a, i) < at_or_zero(b, i) {
        -1
    } else if at_or_zero(a, i) > at_or_zero(b, i) {
        1
    } else {
        lex_cmp_from(a, b, i + 1)
    }
}

pub open spec fn lex_cmp(a: Seq<int>, b: Seq<int>) -> int {
    lex_cmp_from(a, b, 0)
}

/// The order of two upstream or revision strings: -1, 0 or 1.
pub open spec fn cmp_part(a: Seq<char>, b: Seq<char>) -> int {
    lex_cmp(version_key(a), version_key(b))
}

/// A parsed version. The revision is empty where the text has no hyphen.
#[derive(Clone, Debug)]
pub struct Version {
    pub epoch: u32,
    pub upstream: String,
    pub revision: String,
}

/// The order of two versions: -1, 0 or 1.
pub open spec fn cmp_version(a: Version, b: Version) -> int {
    if a.epoch < b.epoch {
        -1
    } else if a.epoch > b.epoch {
        1
    } else if cmp_part(a.upstream@, b.upstream@) != 0 {
        cmp_part(a.upstream@, b.upstream@)
    } else {
        cmp_part(a.revision@, b.revision@)
    }
}

pub open spec fn ordering_of(c: int) -> core::cmp::Ordering {
    if c < 0 {
        core::cmp::Ordering::Less
    } else if c == 0 {
        core::cmp::Ordering::Equal
    } else {
        core::cmp::Ordering::Greater
    }
}

pub open spec fn key_view(v: Seq<i128>) -> Seq<int> {
    v.map_values(|x: i128| x as int)
}

proof fn lemma_key_push(v: Seq<i128>, x: i128)
    ensures
        key_view(v.push(x)) == key_view(v).push(x as int),
{
    assert(key_view(v.push(x)) =~= key_view(v).push(x as int));
}

/// Computes the sort key of a version part.
fn sort_key(s: &Vec<char>) -> (r: Vec<i128>)
    ensures
        key_view(r@) == version_key(s@),
{
    let ghost t = s@;
    let n = s.len();
    let mut out: Vec<i128> = Vec::new();
    let mut i: usize = 0;
    while i < n
        invariant
            n == t.len(),
            s@ == t,
            i <= n,
            key_view(out@).add(key_from(t, i as int)) == version_key(t),
        decreases n - i,
    {
        let c = s[i];
        if !char_is_digit(c) {
            let w: i128 = if char_is_alpha(c) {
                c as u32 as i128
            } else if c == '~' {
                -1
            } else {
                c as u32 as i128 + 256
            };
            proof {
                lemma_key_push(out@, w);
                assert(w as int == char_weight(c));
                assert(key_from(t, i as int) == seq![char_weight(c)].add(key_from(t, i + 1)));
                assert(key_view(out@.push(w)).add(key_from(t, i + 1)) =~= key_view(out@).add(
                    key_from(t, i as int),
                ));
            }
            out.push(w);
            i = i + 1;
        } else {
            let mut e: usize = i;
            while e < n && char_is_digit(s[e])
                invariant
                    n == t.len(),
                    s@ == t,
                    i <= e <= n,
                    run_end(t, i as int) == run_end(t, e as int),
                    forall|k: int| i <= k < e ==> is_digit(t[k]),
                decreases n - e,
            {
                e = e + 1;
            }
            let mut z: usize = i;
            while z < n && s[z] == '0'
                invariant
                    n == t.len(),
                    s@ == t,
                    i <= z <= e <= n,
                    e == n || !is_digit(t[e as int]),
                    zero_end(t, i as int) == zero_end(t, z as int),
                    forall|k: int| i <= k < z ==> t[k] == '0',
                decreases n - z,
            {
                z = z + 1;
            }
            let count: i128 = (e - z) as i128;
            proof {
                assert(run_end(t, e as int) == e);
                assert(zero_end(t, z as int) == z);
                lemma_key_push(out@, 0);
                lemma_key_push(out@.push(0), count);
                assert(key_view(out@.push(0).push(count)).add(zeros_from(t, i as int))
                    =~= key_view(out@).add(key_from(t, i as int)));
            }
            out.push(0);
            out.push(count);
            let mut j: usize = i;
            while j < z
                invariant
                    n == t.len(),
                    s@ == t,
                    i <= j <= z <= e <= n,
                    zero_end(t, j as int) == z,
                    forall|k: int| j <= k < z ==> t[k] == '0',
                    key_view(out@).add(zeros_from(t, j as int)) == version_key(t),
                decreases z - j,
            {
                j = j + 1;
            }
            assert(zeros_from(t, j as int) == digits_from(t, j as int));
            while j < e
                invariant
                    n == t.len(),
                    s@ == t,
                    z <= j <= e <= n,
                    e == n || !is_digit(t[e as int]),
                    forall|k: int| z <= k < e ==> is_digit(t[k]),
                    key_view(out@).add(digits_from(t, j as int)) == version_key(t),
                decreases e - j,
            {
                let d: i128 = (s[j] as u32 - '0' as u32) as i128;
                proof {
                    lemma_key_push(out@, d);
                    assert(key_view(out@.push(d)).add(digits_from(t, j + 1)) =~= key_view(
                        out@,
                    ).add(digits_from(t, j as int)));
                }
                out.push(d);
                j = j + 1;
            }
            assert(digits_from(t, j as int) == key_from(t, j as int));
            i = e;
        }
    }
    assert(key_view(out@) =~= key_view(out@).add(key_from(t, n as int)));
    out
}

/// Compares two sort keys.
fn lex_compare(a: &Vec<i128>, b: &Vec<i128>) -> (r: i8)
    ensures
        r as int == lex_cmp(key_view(a@), key_view(b@)),
{
    let ghost ka = key_view(a@);
    let ghost kb = key_view(b@);
    let n = if a.len() > b.len() { a.len() } else { b.len() };
    let mut i: usize = 0;
    while i < n
        invariant
            ka == key_view(a@),
            kb == key_view(b@),
            n == if a@.len() > b@.len() { a@.len() } else { b@.len() },
            i <= n,
            lex_cmp(ka, kb) == lex_cmp_from(ka, kb, i as int),
        decreases n - i,
    {
        let x: i128 = if i < a.len() { a[i] } else { 0 };
        let y: i128 = if i < b.len() { b[i] } else { 0 };
        assert(x as int == at_or_zero(ka, i as int));
        assert(y as int == at_or_zero(kb, i as int));
        if x < y {
            return -1;
        } else if x > y {
            return 1;
        }
        i = i + 1;
    }
    0
}

/// Compares two upstream or revision strings under the version order.
pub fn compare_part(a: &str, b: &str) -> (r: i8)
    ensures
        r as int == cmp_part(a@, b@),
{
    let ka = sort_key(&chars_of(a));
    let kb = sort_key(&chars_of(b));
    lex_compare(&ka, &kb)
}

impl Version {
    /// Orders two versions: epoch first, then upstream, then revision.
    pub fn compare(&self, other: &Version) -> (r: core::cmp::Ordering)
        ensures
            r == ordering_of(cmp_version(*self, *other)),
    {
        if self.epoch < other.epoch {
            return core::cmp::Ordering::Less;
        }
        if self.epoch > other.epoch {
            return core::cmp::Ordering::Greater;
        }
        let u = compare_part(self.upstream.as_str(), other.upstream.as_str());
        let c = if u != 0 {
            u
        } else {
            compare_part(self.revision.as_str(), other.revision.as_str())
        };
        if c < 0 {
            core::cmp::Ordering::Less
        } else if c == 0 {
            core::cmp::Ordering::Equal
        } else {
            core::cmp::Ordering::Greater
        }
    }
}

proof fn lemma_lex_antisymmetric(a: Seq<int>, b: Seq<int>, i: int)
    requires
        i >= 0,
    ensures
        lex_cmp_from(a, b, i) == -lex_cmp_from(b, a, i),
        -1 <= lex_cmp_from(a, b, i) <= 1,
    decreases a.len() + b.len() - i,
{
    if !(i >= a.len() && i >= b.len()) && at_or_zero(a, i) == at_or_zero(b, i) {
        lemma_lex_antisymmetric(a, b, i + 1);
    }
}

proof fn lemma_lex_transitive(a: Seq<int>, b: Seq<int>, c: Seq<int>, i: int)
    requires
        i >= 0,
        lex_cmp_from(a, b, i) <= 0,
        lex_cmp_from(b, c, i) <= 0,
    ensures
        lex_cmp_from(a, c, i) <= 0,
        lex_cmp_from(a, b, i) < 0 || lex_cmp_from(b, c, i) < 0 ==> lex_cmp_from(a, c, i) < 0,
    decreases a.len() + b.len() + c.len() - i,
{
    if !(i >= a.len() && i >= b.len() && i >= c.len()) {
        if at_or_zero(a, i) == at_or_zero(b, i) && at_or_zero(b, i) == at_or_zero(c, i) {
            lemma_lex_transitive(a, b, c, i + 1);
        }
    }
}

/// The version order is antisymmetric, and each comparison has exactly one of
/// the three outcomes: swapping the arguments negates the result, which is
/// always -1, 0 or 1.
pub proof fn lemma_version_cmp_antisymmetric(a: Version, b: Version)
    ensures
        cmp_version(a, b) == -cmp_version(b, a),
        cmp_version(a, b) == -1 || cmp_version(a, b) == 0 || cmp_version(a, b) == 1,
{
    lemma_lex_antisymmetric(version_key(a.upstream@), version_key(b.upstream@), 0);
    lemma_lex_antisymmetric(version_key(a.revision@), version_key(b.revision@), 0);
}

/// The version order is transitive: `a <= b` and `b <= c` give `a <= c`, strictly
/// where either step is strict.
pub proof fn lemma_version_cmp_transitive(a: Version, b: Version, c: Version)
    requires
        cmp_version(a, b) <= 0,
        cmp_version(b, c) <= 0,
    ensures
        cmp_version(a, c) <= 0,
        cmp_version(a, b) < 0 || cmp_version(b, c) < 0 ==> cmp_version(a, c) < 0,
{
    let (ua, ub, uc) = (version_key(a.upstream@), version_key(b.upstream@), version_key(c.upstream@));
    let (ra, rb, rc) = (version_key(a.revision@), version_key(b.revision@), version_key(c.revision@));
    lemma_lex_antisymmetric(ua, ub, 0);
    lemma_lex_antisymmetric(ub, uc, 0);
    lemma_lex_antisymmetric(ua, uc, 0);
    lemma_lex_antisymmetric(ra, rb, 0);
    lemma_lex_antisymmetric(rb, rc, 0);
    lemma_lex_antisymmetric(ra, rc, 0);
    if a.epoch == b.epoch && b.epoch == c.epoch {
        if lex_cmp(ua, ub) <= 0 && lex_cmp(ub, uc) <= 0 {
            lemma_lex_transitive(ua, ub, uc, 0);
        }
        if lex_cmp(ua, ub) == 0 && lex_cmp(ub, uc) == 0 {
            lemma_lex_transitive(ub, ua, uc, 0);
            lemma_lex_transitive(ua, uc, ub, 0);
            lemma_lex_transitive(uc, ua, ub, 0);
            lemma_lex_transitive(ra, rb, rc, 0);
        }
    }
}

/// The error of `deb_version7`'s version parser, carried as an opaque value.
#[verifier::external_type_specification]
#[verifier::external_body]
pub struct ExDebVersionError(deb_version7::Error);

/// What `deb_version7` reads from a version string: the epoch, the upstream
/// part and the revision, if the text is a well-formed Debian version.
pub uninterp spec fn deb_version_parts(s: Seq<char>) -> Option<(u32, Seq<char>, Option<Seq<char>>)>;

/// Relies on `deb_version7::DebVersion::from_str` and its accessors `epoch`,
/// `version` and `revision`: it validates a version string and splits it into
/// `[epoch:]upstream[-revision]`, or fails with its error.
#[verifier::external_body]
fn deb_version_from_str(s: &str) -> (r: Result<(u32, String, Option<String>), deb_version7::Error>)
    ensures
        r is Ok <==> deb_version_parts(s@) is Some,
        r is Ok ==> ({
            let (e, u, v) = r->Ok_0;
            let p = deb_version_parts(s@)->Some_0;
            &&& e == p.0
            &&& u@ == p.1
            &&& v is Some <==> p.2 is Some
            &&& v is Some ==> v->Some_0@ == p.2->Some_0
        }),
{
    match deb_version7::DebVersion::from_str(s) {
        Ok(v) => {
            let revision = match v.revision() {
                Some(r) => Some(r.to_string()),
                None => None,
            };
            Ok((v.epoch(), v.version().to_string(), revision))
        },
        Err(e) => Err(e),
    }
}

/// The library's version for the parts that a version string splits into; an
/// absent revision is the empty string.
pub open spec fn version_model(p: (u32, Seq<char>, Option<Seq<char>>)) -> (u32, Seq<char>, Seq<char>) {
    (p.0, p.1, if p.2 is Some { p.2->Some_0 } else { Seq::empty() })
}

pub open spec fn version_view(v: Version) -> (u32, Seq<char>, Seq<char>) {
    (v.epoch, v.upstream@, v.revision@)
}

impl Version {
    /// Builds a version from the parts of its text; an absent revision is empty.
    pub fn from_parts(epoch: u32, upstream: String, revision: Option<String>) -> (r: Version)
        ensures
            r.epoch == epoch,
            r.upstream@ == upstream@,
            revision is Some ==> r.revision@ == revision->Some_0@,
            revision is None ==> r.revision@ == Seq::<char>::empty(),
    {
        let revision = match revision {
            Some(r) => r,
            None => String::new(),
        };
        Version { epoch, upstream, revision }
    }

    /// Parses `[epoch:]upstream[-revision]`; a malformed version is an invalid value.
    pub fn parse(s: &str) -> (r: Result<Version, PakigeParseError>)
        ensures
            r is Ok <==> deb_version_parts(s@) is Some,
            r is Ok ==> version_view(r->Ok_0) == version_model(deb_version_parts(s@)->Some_0),
            r is Err ==> r->Err_0 == PakigeParseError::InvalidValue,
    {
        match deb_version_from_str(s) {
            Ok((e, u, v)) => Ok(Version::from_parts(e, u, v)),
            Err(_) => Err(PakigeParseError::InvalidValue),
        }
    }
}

} // verus!
