//! Relationship fields: `name[:arch] [(op version)]` references, joined into
//! alternatives by `|` and into a conjunction of groups by `,`.

use vstd::prelude::*;
use crate::text::{chars_of, is_digit, is_space, trim, split, find_from, views, slice_of, trim_chars, split_chars, find_char, string_of, char_is_digit, char_is_space};
use crate::version::{Version, deb_version_parts, version_model, version_view};
use crate::{PakigeParseError, VerOp};

verus! {

/// A version constraint on a referenced package.
#[derive(Clone, Debug)]
pub struct VersionRef {
    pub operation: VerOp,
    pub version_string: Version,
}

/// One referenced package, with its optional architecture qualifier and
/// version constraint.
#[derive(Clone, Debug)]
pub struct PackageRef {
    pub package: String,
    pub architecture: Option<String>,
    pub version: Option<VersionRef>,
}

/// What a reference denotes: its name, qualifier and constraint.
pub type RefModel = (Seq<char>, Option<Seq<char>>, Option<(VerOp, (u32, Seq<char>, Seq<char>))>);

pub open spec fn ref_view(r: PackageRef) -> RefModel {
    (
        r.package@,
        if r.architecture is Some { Some(r.architecture->Some_0@) } else { None },
        if r.version is Some {
            Some((r.version->Some_0.operation, version_view(r.version->Some_0.version_string)))
        } else {
            None
        },
    )
}

pub open spec fn refs_view(v: Seq<PackageRef>) -> Seq<RefModel> {
    v.map_values(|r: PackageRef| ref_view(r))
}

pub open spec fn groups_view(g: Seq<Vec<PackageRef>>) -> Seq<Seq<RefModel>> {
    g.map_values(|alts: Vec<PackageRef>| refs_view(alts@))
}

pub open spec fn is_name_start(c: char) -> bool {
    ('a' <= c && c <= 'z') || is_digit(c)
}

pub open spec fn is_name_char(c: char) -> bool {
    is_name_start(c) || c == '+' || c == '.' || c == '-'
}

/// A package name: `[a-z0-9][a-z0-9+.-]+`, matched in full.
pub open spec fn is_package_name(s: Seq<char>) -> bool {
    &&& s.len() >= 2
    &&& is_name_start(s[0])
    &&& forall|k: int| 1 <= k < s.len() ==> is_name_char(#[trigger] s[k])
}

pub open spec fn has_space(s: Seq<char>) -> bool {
    exists|k: int| 0 <= k < s.len() && is_space(#[trigger] s[k])
}

pub open spec fn is_op_char(c: char) -> bool {
    c == '<' || c == '=' || c == '>'
}

/// The index just past the run of operator characters that starts at `i`.
pub open spec fn op_end(s: Seq<char>, i: int) -> int
    decreases s.len() - i,
{
    if 0 <= i < s.len() && is_op_char(s[i]) {
        op_end(s, i + 1)
    } else {
        i
    }
}

/// The relation an operator denotes; the legacy `<` and `>` mean `<=` and `>=`.
pub open spec fn op_of(s: Seq<char>) -> Option<VerOp> {
    if s.len() == 1 {
        if s[0] == '=' {
            Some(VerOp::Eq)
        } else if s[0] == '<' {
            Some(VerOp::LtEq)
        } else if s[0] == '>' {
            Some(VerOp::GtEq)
        } else {
            None
        }
    } else if s.len() == 2 && s[1] == '=' && s[0] == '<' {
        Some(VerOp::LtEq)
    } else if s.len() == 2 && s[1] == '=' && s[0] == '>' {
        Some(VerOp::GtEq)
    } else if s.len() == 2 && s[0] == '<' && s[1] == '<' {
        Some(VerOp::Lt)
    } else if s.len() == 2 && s[0] == '>' && s[1] == '>' {
        Some(VerOp::Gt)
    } else {
        None
    }
}

/// The text between the parentheses of a constraint: an operator and a version.
pub open spec fn constraint_of(inner: Seq<char>) -> Option<(VerOp, (u32, Seq<char>, Seq<char>))> {
    let t = trim(inner);
    let k = op_end(t, 0);
    let op = op_of(t.take(k));
    let v = deb_version_parts(trim(t.skip(k)));
    if op is Some && v is Some {
        Some((op->Some_0, version_model(v->Some_0)))
    } else {
        None
    }
}

/// `name[:arch]`, around which whitespace is ignored.
pub open spec fn head_of(h: Seq<char>) -> Option<(Seq<char>, Option<Seq<char>>)> {
    let t = trim(h);
    let c = find_from(t, ':', 0);
    let name = t.take(c);
    let arch = t.skip(c + 1);
    if !is_package_name(name) {
        None
    } else if c == t.len() {
        Some((name, None))
    } else if arch.len() > 0 && !has_space(arch) {
        Some((name, Some(arch)))
    } else {
        None
    }
}

/// One reference: `name[:arch]`, then optionally a constraint in parentheses
/// that closes the text.
pub open spec fn ref_of(s: Seq<char>) -> Option<RefModel> {
    let t = trim(s);
    let p = find_from(t, '(', 0);
    if p == t.len() {
        let h = head_of(t);
        if h is Some {
            Some((h->Some_0.0, h->Some_0.1, None))
        } else {
            None
        }
    } else if t.last() != ')' {
        None
    } else {
        let h = head_of(t.take(p));
        let c = constraint_of(t.subrange(p + 1, t.len() - 1));
        if h is Some && c is Some {
            Some((h->Some_0.0, h->Some_0.1, c))
        } else {
            None
        }
    }
}

/// The references of a relationship value, as text: groups split at `,`,
/// alternatives at `|`.
pub open spec fn list_pieces(s: Seq<char>) -> Seq<Seq<Seq<char>>> {
    split(s, ',').map_values(|g: Seq<char>| split(g, '|'))
}

/// A relationship value is well formed when each of its references is.
pub open spec fn list_ok(s: Seq<char>) -> bool {
    let p = list_pieces(s);
    forall|i: int, j: int|
        0 <= i < p.len() && 0 <= j < p[i].len() ==> (#[trigger] ref_of(p[i][j])) is Some
}

/// The groups of alternatives that a well-formed relationship value denotes.
pub open spec fn list_of(s: Seq<char>) -> Seq<Seq<RefModel>> {
    list_pieces(s).map_values(|g: Seq<Seq<char>>| refs_of(g))
}

/// What the well-formed references of one group denote.
pub open spec fn refs_of(g: Seq<Seq<char>>) -> Seq<RefModel> {
    g.map_values(|r: Seq<char>| ref_of(r)->Some_0)
}

pub fn is_package_name_chars(v: &Vec<char>) -> (r: bool)
    ensures
        r == is_package_name(v@),
{
    if v.len() < 2 {
        return false;
    }
    let c0 = v[0];
    if !(('a' <= c0 && c0 <= 'z') || char_is_digit(c0)) {
        return false;
    }
    let mut i: usize = 1;
    while i < v.len()
        invariant
            1 <= i <= v@.len(),
            forall|k: int| 1 <= k < i ==> is_name_char(#[trigger] v@[k]),
        decreases v@.len() - i,
    {
        let c = v[i];
        if !(('a' <= c && c <= 'z') || char_is_digit(c) || c == '+' || c == '.' || c == '-') {
            return false;
        }
        i = i + 1;
    }
    true
}

fn has_space_chars(v: &Vec<char>) -> (r: bool)
    ensures
        r == has_space(v@),
{
    let mut i: usize = 0;
    while i < v.len()
        invariant
            i <= v@.len(),
            forall|k: int| 0 <= k < i ==> !is_space(#[trigger] v@[k]),
        decreases v@.len() - i,
    {
        if char_is_space(v[i]) {
            return true;
        }
        i = i + 1;
    }
    false
}

fn op_of_chars(v: &Vec<char>) -> (r: Option<VerOp>)
    ensures
        r == op_of(v@),
{
    if v.len() == 1 {
        if v[0] == '=' {
            Some(VerOp::Eq)
        } else if v[0] == '<' {
            Some(VerOp::LtEq)
        } else if v[0] == '>' {
            Some(VerOp::GtEq)
        } else {
            None
        }
    } else if v.len() == 2 && v[1] == '=' && v[0] == '<' {
        Some(VerOp::LtEq)
    } else if v.len() == 2 && v[1] == '=' && v[0] == '>' {
        Some(VerOp::GtEq)
    } else if v.len() == 2 && v[0] == '<' && v[1] == '<' {
        Some(VerOp::Lt)
    } else if v.len() == 2 && v[0] == '>' && v[1] == '>' {
        Some(VerOp::Gt)
    } else {
        None
    }
}

fn constraint_chars(inner: &Vec<char>) -> (r: Option<VersionRef>)
    ensures
        r is Some <==> constraint_of(inner@) is Some,
        r is Some ==> (r->Some_0.operation, version_view(r->Some_0.version_string))
            == constraint_of(inner@)->Some_0,
{
    let t = trim_chars(inner);
    let mut k: usize = 0;
    while k < t.len() && (t[k] == '<' || t[k] == '=' || t[k] == '>')
        invariant
            k <= t@.len(),
            op_end(t@, 0) == op_end(t@, k as int),
        decreases t@.len() - k,
    {
        k = k + 1;
    }
    let op = op_of_chars(&slice_of(&t, 0, k));
    assert(t@.subrange(0, k as int) =~= t@.take(k as int));
    let rest = trim_chars(&slice_of(&t, k, t.len()));
    assert(t@.subrange(k as int, t@.len() as int) =~= t@.skip(k as int));
    let text = string_of(&rest, 0, rest.len());
    assert(rest@.subrange(0, rest@.len() as int) =~= rest@);
    match op {
        Some(o) => match Version::parse(text.as_str()) {
            Ok(v) => Some(VersionRef { operation: o, version_string: v }),
            Err(_) => None,
        },
        None => None,
    }
}

fn head_chars(h: &Vec<char>) -> (r: Option<(String, Option<String>)>)
    ensures
        r is Some <==> head_of(h@) is Some,
        r is Some ==> r->Some_0.0@ == head_of(h@)->Some_0.0,
        r is Some ==> (r->Some_0.1 is Some <==> head_of(h@)->Some_0.1 is Some),
        r is Some && r->Some_0.1 is Some ==> r->Some_0.1->Some_0@ == head_of(h@)->Some_0.1->Some_0,
{
    let t = trim_chars(h);
    let c = find_char(&t, ':');
    let name = slice_of(&t, 0, c);
    assert(t@.subrange(0, c as int) =~= t@.take(c as int));
    if !is_package_name_chars(&name) {
        return None;
    }
    let name_text = string_of(&name, 0, name.len());
    assert(name@.subrange(0, name@.len() as int) =~= name@);
    if c == t.len() {
        return Some((name_text, None));
    }
    let arch = slice_of(&t, c + 1, t.len());
    assert(t@.subrange(c + 1, t@.len() as int) =~= t@.skip(c + 1));
    if arch.len() > 0 && !has_space_chars(&arch) {
        let arch_text = string_of(&arch, 0, arch.len());
        assert(arch@.subrange(0, arch@.len() as int) =~= arch@);
        Some((name_text, Some(arch_text)))
    } else {
        None
    }
}

/// Parses one reference `name[:arch] [(op version)]`.
pub fn parse_ref(s: &Vec<char>) -> (r: Option<PackageRef>)
    ensures
        r is Some <==> ref_of(s@) is Some,
        r is Some ==> ref_view(r->Some_0) == ref_of(s@)->Some_0,
{
    let t = trim_chars(s);
    let p = find_char(&t, '(');
    if p == t.len() {
        match head_chars(&t) {
            Some((n, a)) => Some(PackageRef { package: n, architecture: a, version: None }),
            None => None,
        }
    } else if t[t.len() - 1] != ')' {
        None
    } else {
        let head = slice_of(&t, 0, p);
        assert(t@.subrange(0, p as int) =~= t@.take(p as int));
        let inner = slice_of(&t, p + 1, t.len() - 1);
        match head_chars(&head) {
            Some((n, a)) => match constraint_chars(&inner) {
                Some(c) => Some(PackageRef { package: n, architecture: a, version: Some(c) }),
                None => None,
            },
            None => None,
        }
    }
}

/// Parses a relationship value into its groups of alternatives. An empty
/// group, an empty alternative or a malformed reference is an invalid value.
pub fn parse_relationship(s: &str) -> (r: Result<Vec<Vec<PackageRef>>, PakigeParseError>)
    ensures
        r is Ok <==> list_ok(s@),
        r is Ok ==> groups_view(r->Ok_0@) == list_of(s@),
        r is Err ==> r->Err_0 == PakigeParseError::InvalidValue,
{
    let ghost pieces = list_pieces(s@);
    let v = chars_of(s);
    let groups = split_chars(&v, ',');
    let mut out: Vec<Vec<PackageRef>> = Vec::new();
    let mut i: usize = 0;
    while i < groups.len()
        invariant
            pieces == list_pieces(s@),
            views(groups@) == split(s@, ','),
            pieces.len() == groups@.len(),
            i <= groups@.len(),
            out@.len() == i,
            groups_view(out@) == list_of(s@).take(i as int),
            forall|a: int, b: int|
                0 <= a < i && 0 <= b < pieces[a].len() ==> (#[trigger] ref_of(pieces[a][b])) is Some,
        decreases groups@.len() - i,
    {
        let alts = split_chars(&groups[i], '|');
        assert(views(alts@) == pieces[i as int]);
        let mut refs: Vec<PackageRef> = Vec::new();
        let mut j: usize = 0;
        while j < alts.len()
            invariant
                pieces == list_pieces(s@),
                i < pieces.len(),
                views(alts@) == pieces[i as int],
                j <= alts@.len(),
                refs@.len() == j,
                alts@.len() == pieces[i as int].len(),
                refs_view(refs@) == refs_of(pieces[i as int].take(j as int)),
                forall|b: int| 0 <= b < j ==> (#[trigger] ref_of(pieces[i as int][b])) is Some,
            decreases alts@.len() - j,
        {
            assert(alts@[j as int]@ == pieces[i as int][j as int]);
            match parse_ref(&alts[j]) {
                Some(r) => {
                    let ghost before = refs@;
                    refs.push(r);
                    proof {
                        let pi = pieces[i as int];
                        assert forall|k: int| 0 <= k < j + 1 implies refs_view(refs@)[k] == refs_of(
                            pi.take(j + 1),
                        )[k] by {
                            if k < j {
                                assert(refs@[k] == before[k]);
                                assert(refs_view(before)[k] == refs_of(pi.take(j as int))[k]);
                            }
                        }
                        assert(refs_view(refs@) =~= refs_of(pi.take(j + 1)));
                    }
                },
                None => {
                    assert(ref_of(pieces[i as int][j as int]) is None);
                    return Err(PakigeParseError::InvalidValue);
                },
            }
            j = j + 1;
        }
        assert(pieces[i as int].take(j as int) =~= pieces[i as int]);
        let ghost before = out@;
        out.push(refs);
        proof {
            assert forall|k: int| 0 <= k < i + 1 implies groups_view(out@)[k] == list_of(s@).take(
                i + 1,
            )[k] by {
                if k < i {
                    assert(out@[k] == before[k]);
                    assert(groups_view(before)[k] == list_of(s@).take(i as int)[k]);
                }
            }
            assert(groups_view(out@) =~= list_of(s@).take(i + 1));
        }
        i = i + 1;
    }
    assert(list_of(s@).take(i as int) =~= list_of(s@));
    Ok(out)
}

/// A relationship field whose groups may hold several alternatives
/// (Depends, Pre-Depends, Recommends, Suggests, Enhances).
#[derive(Clone, Debug)]
pub struct DependsPackageList(pub Vec<Vec<PackageRef>>);

/// A relationship field of the Breaks, Conflicts, Provides, Replaces and
/// Built-Using kind.
#[derive(Clone, Debug)]
pub struct ProvidesPackageList(pub Vec<Vec<PackageRef>>);

impl DependsPackageList {
    pub fn parse(s: &str) -> (r: Result<DependsPackageList, PakigeParseError>)
        ensures
            r is Ok <==> list_ok(s@),
            r is Ok ==> groups_view(r->Ok_0.0@) == list_of(s@),
            r is Err ==> r->Err_0 == PakigeParseError::InvalidValue,
    {
        match parse_relationship(s) {
            Ok(g) => Ok(DependsPackageList(g)),
            Err(e) => Err(e),
        }
    }
}

impl ProvidesPackageList {
    pub fn parse(s: &str) -> (r: Result<ProvidesPackageList, PakigeParseError>)
        ensures
            r is Ok <==> list_ok(s@),
            r is Ok ==> groups_view(r->Ok_0.0@) == list_of(s@),
            r is Err ==> r->Err_0 == PakigeParseError::InvalidValue,
    {
        match parse_relationship(s) {
            Ok(g) => Ok(ProvidesPackageList(g)),
            Err(e) => Err(e),
        }
    }
}

} // verus!
