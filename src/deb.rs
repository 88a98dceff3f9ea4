//! The field registry: turns the fields of one stanza into a validated
//! binary package record, reporting the first error in a fixed field order.

use vstd::prelude::*;
use crate::text::{is_digit, chars_of};
use crate::stanza::{Fields, FieldsModel, lookup, table_of, str_to_table};
use crate::depends::{
    RefModel, groups_view, list_ok, list_of, is_package_name, is_package_name_chars,
    parse_relationship,
};
use crate::version::{Version, deb_version_parts, version_model, version_view};
use crate::PakigeParseError;

pub use crate::depends::{DependsPackageList, PackageRef, ProvidesPackageList, VersionRef};

verus! {

/// How a package may be installed alongside other architectures' packages.
#[derive(Clone, Copy, Debug, PartialEq, Eq, Structural)]
pub enum MultiArch {
    No,
    Same,
    Foreign,
    Allowed,
}

impl Default for MultiArch {
    fn default() -> (r: MultiArch)
        ensures
            r == MultiArch::No,
    {
        MultiArch::No
    }
}

/// A validated binary package record.
#[derive(Clone, Debug)]
pub struct BinaryDeb {
    pub package: String,
    pub source: Option<String>,
    pub version: Version,
    pub section: Option<String>,
    pub priority: Option<String>,
    pub architecture: String,
    pub essential: bool,
    pub depends: Option<DependsPackageList>,
    pub recommends: Option<DependsPackageList>,
    pub suggests: Option<DependsPackageList>,
    pub enhances: Option<DependsPackageList>,
    pub pre_depends: Option<DependsPackageList>,
    pub breaks: Option<ProvidesPackageList>,
    pub conflicts: Option<ProvidesPackageList>,
    pub provides: Option<ProvidesPackageList>,
    pub replaces: Option<ProvidesPackageList>,
    pub installed_size: Option<u64>,
    pub maintainer: String,
    pub description: String,
    pub homepage: Option<String>,
    pub built_using: Option<ProvidesPackageList>,
    pub multi_arch: MultiArch,
    pub all_fields: Fields,
}

/// The fields that a package index adds to a package's own.
#[derive(Clone, Debug)]
pub struct BinaryIndexFields {
    pub filename: String,
    pub size: u64,
    pub md5sum: Option<String>,
    pub sha1: Option<String>,
    pub sha256: Option<String>,
    pub sha512: Option<String>,
    pub desc_md5: Option<String>,
}

/// The records of a package index, each with its index fields.
#[derive(Clone, Debug)]
pub struct PackageIndex(pub Vec<(BinaryDeb, BinaryIndexFields)>);

pub open spec fn opt_view(o: Option<String>) -> Option<Seq<char>> {
    if o is Some {
        Some(o->Some_0@)
    } else {
        None
    }
}

/// A field holding a package name: absent, or a valid name.
pub open spec fn name_field(f: FieldsModel, key: Seq<char>) -> Result<Option<Seq<char>>, PakigeParseError> {
    let v = lookup(f, key);
    if v is None {
        Ok(None)
    } else if is_package_name(v->Some_0) {
        Ok(v)
    } else {
        Err(PakigeParseError::InvalidValue)
    }
}

pub open spec fn version_field(f: FieldsModel) -> Result<Option<(u32, Seq<char>, Seq<char>)>, PakigeParseError> {
    let v = lookup(f, "version"@);
    if v is None {
        Ok(None)
    } else if deb_version_parts(v->Some_0) is Some {
        Ok(Some(version_model(deb_version_parts(v->Some_0)->Some_0)))
    } else {
        Err(PakigeParseError::InvalidValue)
    }
}

pub open spec fn essential_field(f: FieldsModel) -> Result<Option<bool>, PakigeParseError> {
    let v = lookup(f, "essential"@);
    if v is None {
        Ok(None)
    } else if v->Some_0 == "yes"@ {
        Ok(Some(true))
    } else if v->Some_0 == "no"@ {
        Ok(Some(false))
    } else {
        Err(PakigeParseError::InvalidValue)
    }
}

pub open spec fn multi_arch_field(f: FieldsModel) -> Result<Option<MultiArch>, PakigeParseError> {
    let v = lookup(f, "multi-arch"@);
    if v is None {
        Ok(None)
    } else if v->Some_0 == "allowed"@ {
        Ok(Some(MultiArch::Allowed))
    } else if v->Some_0 == "foreign"@ {
        Ok(Some(MultiArch::Foreign))
    } else if v->Some_0 == "same"@ {
        Ok(Some(MultiArch::Same))
    } else if v->Some_0 == "no"@ {
        Ok(Some(MultiArch::No))
    } else {
        Err(PakigeParseError::InvalidValue)
    }
}

/// Whether `s` is a non-empty run of decimal digits.
pub open spec fn is_decimal(s: Seq<char>) -> bool {
    s.len() > 0 && forall|k: int| 0 <= k < s.len() ==> is_digit(#[trigger] s[k])
}

/// The number that a run of decimal digits denotes.
pub open spec fn decimal_value(s: Seq<char>) -> nat
    decreases s.len(),
{
    if s.len() == 0 {
        0
    } else {
        decimal_value(s.drop_last()) * 10 + (s.last() as nat - '0' as nat) as nat
    }
}

pub open spec fn size_field(f: FieldsModel) -> Result<Option<u64>, PakigeParseError> {
    let v = lookup(f, "installed-size"@);
    if v is None {
        Ok(None)
    } else if is_decimal(v->Some_0) && decimal_value(v->Some_0) <= u64::MAX {
        Ok(Some(decimal_value(v->Some_0) as u64))
    } else {
        Err(PakigeParseError::InvalidValue)
    }
}

pub open spec fn relation_field(f: FieldsModel, key: Seq<char>) -> Result<Option<Seq<Seq<RefModel>>>, PakigeParseError> {
    let v = lookup(f, key);
    if v is None {
        Ok(None)
    } else if list_ok(v->Some_0) {
        Ok(Some(list_of(v->Some_0)))
    } else {
        Err(PakigeParseError::InvalidValue)
    }
}

pub open spec fn depends_view(o: Option<DependsPackageList>) -> Option<Seq<Seq<RefModel>>> {
    if o is Some {
        Some(groups_view(o->Some_0.0@))
    } else {
        None
    }
}

pub open spec fn provides_view(o: Option<ProvidesPackageList>) -> Option<Seq<Seq<RefModel>>> {
    if o is Some {
        Some(groups_view(o->Some_0.0@))
    } else {
        None
    }
}

proof fn lemma_decimal_prefix(s: Seq<char>, i: int, j: int)
    requires
        0 <= i <= j <= s.len(),
    ensures
        decimal_value(s.take(i)) <= decimal_value(s.take(j)),
    decreases j - i,
{
    if i < j {
        lemma_decimal_prefix(s, i, j - 1);
        assert(s.take(j).drop_last() =~= s.take(j - 1));
    }
}

/// Reads a non-negative decimal integer that fits in 64 bits.
pub fn parse_decimal(s: &str) -> (r: Option<u64>)
    ensures
        r is Some <==> is_decimal(s@) && decimal_value(s@) <= u64::MAX,
        r is Some ==> r->Some_0 == decimal_value(s@),
{
    let v = chars_of(s);
    if v.len() == 0 {
        return None;
    }
    let mut acc: u64 = 0;
    let mut i: usize = 0;
    assert(v@.take(0) =~= Seq::<char>::empty());
    while i < v.len()
        invariant
            v@ == s@,
            i <= v@.len(),
            acc == decimal_value(v@.take(i as int)),
            forall|k: int| 0 <= k < i ==> is_digit(#[trigger] v@[k]),
        decreases v@.len() - i,
    {
        let c = v[i];
        if !('0' <= c && c <= '9') {
            assert(!is_digit(v@[i as int]));
            return None;
        }
        let d: u64 = (c as u32 - '0' as u32) as u64;
        assert(v@.take(i + 1).drop_last() =~= v@.take(i as int));
        let m = acc.checked_mul(10);
        if m.is_none() {
            proof {
                lemma_decimal_prefix(v@, i + 1, v@.len() as int);
                assert(v@.take(v@.len() as int) =~= v@);
            }
            return None;
        }
        let n = m.unwrap().checked_add(d);
        if n.is_none() {
            proof {
                lemma_decimal_prefix(v@, i + 1, v@.len() as int);
                assert(v@.take(v@.len() as int) =~= v@);
            }
            return None;
        }
        acc = n.unwrap();
        i = i + 1;
    }
    assert(v@.take(i as int) =~= v@);
    Some(acc)
}

fn name_setter(fields: &Fields, key: &str) -> (r: Result<Option<String>, PakigeParseError>)
    ensures
        r is Err <==> name_field(fields@, key@) is Err,
        r is Err ==> r->Err_0 == PakigeParseError::InvalidValue,
        r is Ok ==> opt_view(r->Ok_0) == name_field(fields@, key@)->Ok_0,
{
    match fields.get(key) {
        None => Ok(None),
        Some(value) => {
            if is_package_name_chars(&chars_of(value.as_str())) {
                Ok(Some(value.clone()))
            } else {
                Err(PakigeParseError::InvalidValue)
            }
        },
    }
}

fn plain_setter(fields: &Fields, key: &str) -> (r: Option<String>)
    ensures
        opt_view(r) == lookup(fields@, key@),
{
    match fields.get(key) {
        None => None,
        Some(value) => Some(value.clone()),
    }
}

fn relation_setter(fields: &Fields, key: &str) -> (r: Result<Option<Vec<Vec<PackageRef>>>, PakigeParseError>)
    ensures
        r is Err <==> relation_field(fields@, key@) is Err,
        r is Err ==> r->Err_0 == PakigeParseError::InvalidValue,
        r is Ok ==> (r->Ok_0 is Some <==> relation_field(fields@, key@)->Ok_0 is Some),
        r is Ok && r->Ok_0 is Some ==> groups_view(r->Ok_0->Some_0@) == relation_field(fields@, key@)->Ok_0->Some_0,
{
    match fields.get(key) {
        None => Ok(None),
        Some(value) => match parse_relationship(value.as_str()) {
            Ok(g) => Ok(Some(g)),
            Err(e) => Err(e),
        },
    }
}

/// The `package` field: absent, or a valid package name.
pub fn set_package(fields: &Fields) -> (r: Result<Option<String>, PakigeParseError>)
    ensures
        r is Err <==> name_field(fields@, "package"@) is Err,
        r is Err ==> r->Err_0 == PakigeParseError::InvalidValue,
        r is Ok ==> opt_view(r->Ok_0) == name_field(fields@, "package"@)->Ok_0,
{
    name_setter(fields, "package")
}

/// The `source` field: absent, or a valid package name.
pub fn set_source(fields: &Fields) -> (r: Result<Option<String>, PakigeParseError>)
    ensures
        r is Err <==> name_field(fields@, "source"@) is Err,
        r is Err ==> r->Err_0 == PakigeParseError::InvalidValue,
        r is Ok ==> opt_view(r->Ok_0) == name_field(fields@, "source"@)->Ok_0,
{
    name_setter(fields, "source")
}

/// The `version` field: absent, or a well-formed version.
pub fn set_version(fields: &Fields) -> (r: Result<Option<Version>, PakigeParseError>)
    ensures
        r is Err <==> version_field(fields@) is Err,
        r is Err ==> r->Err_0 == PakigeParseError::InvalidValue,
        r is Ok ==> (r->Ok_0 is Some <==> version_field(fields@)->Ok_0 is Some),
        r is Ok && r->Ok_0 is Some ==> version_view(r->Ok_0->Some_0) == version_field(fields@)->Ok_0->Some_0,
{
    match fields.get("version") {
        None => Ok(None),
        Some(value) => match Version::parse(value.as_str()) {
            Ok(v) => Ok(Some(v)),
            Err(e) => Err(e),
        },
    }
}

/// The `section` field, copied as it stands.
pub fn set_section(fields: &Fields) -> (r: Result<Option<String>, PakigeParseError>)
    ensures
        r is Ok,
        opt_view(r->Ok_0) == lookup(fields@, "section"@),
{
    Ok(plain_setter(fields, "section"))
}

/// The `architecture` field, copied as it stands.
pub fn set_architecture(fields: &Fields) -> (r: Result<Option<String>, PakigeParseError>)
    ensures
        r is Ok,
        opt_view(r->Ok_0) == lookup(fields@, "architecture"@),
{
    Ok(plain_setter(fields, "architecture"))
}

/// The `maintainer` field, copied as it stands.
pub fn set_maintainer(fields: &Fields) -> (r: Result<Option<String>, PakigeParseError>)
    ensures
        r is Ok,
        opt_view(r->Ok_0) == lookup(fields@, "maintainer"@),
{
    Ok(plain_setter(fields, "maintainer"))
}

/// The `description` field, copied as it stands.
pub fn set_description(fields: &Fields) -> (r: Result<Option<String>, PakigeParseError>)
    ensures
        r is Ok,
        opt_view(r->Ok_0) == lookup(fields@, "description"@),
{
    Ok(plain_setter(fields, "description"))
}

/// The `homepage` field, copied as it stands.
pub fn set_homepage(fields: &Fields) -> (r: Result<Option<String>, PakigeParseError>)
    ensures
        r is Ok,
        opt_view(r->Ok_0) == lookup(fields@, "homepage"@),
{
    Ok(plain_setter(fields, "homepage"))
}

/// The default priority of a package that states none.
pub open spec fn default_priority() -> Seq<char> {
    "optional"@
}

/// The `priority` field, or `optional` where it is absent.
pub fn set_priority(fields: &Fields) -> (r: Result<Option<String>, PakigeParseError>)
    ensures
        r is Ok,
        r->Ok_0 is Some,
        lookup(fields@, "priority"@) is Some ==> r->Ok_0->Some_0@ == lookup(fields@, "priority"@)->Some_0,
        lookup(fields@, "priority"@) is None ==> r->Ok_0->Some_0@ == default_priority(),
{
    match fields.get("priority") {
        Some(value) => Ok(Some(value.clone())),
        None => Ok(Some("optional".to_owned())),
    }
}

/// The `essential` field: `yes` or `no`, case-sensitively.
pub fn set_essential(fields: &Fields) -> (r: Result<Option<bool>, PakigeParseError>)
    ensures
        r == essential_field(fields@),
{
    match fields.get("essential") {
        None => Ok(None),
        Some(value) => {
            if *value == "yes".to_owned() {
                Ok(Some(true))
            } else if *value == "no".to_owned() {
                Ok(Some(false))
            } else {
                Err(PakigeParseError::InvalidValue)
            }
        },
    }
}

/// The `installed-size` field: a non-negative integer.
pub fn set_installed_size(fields: &Fields) -> (r: Result<Option<u64>, PakigeParseError>)
    ensures
        r == size_field(fields@),
{
    match fields.get("installed-size") {
        None => Ok(None),
        Some(value) => match parse_decimal(value.as_str()) {
            Some(n) => Ok(Some(n)),
            None => Err(PakigeParseError::InvalidValue),
        },
    }
}

/// The `multi-arch` field: `no`, `same`, `foreign` or `allowed`, case-sensitively.
pub fn set_multi_arch(fields: &Fields) -> (r: Result<Option<MultiArch>, PakigeParseError>)
    ensures
        r == multi_arch_field(fields@),
{
    match fields.get("multi-arch") {
        None => Ok(None),
        Some(value) => {
            if *value == "allowed".to_owned() {
                Ok(Some(MultiArch::Allowed))
            } else if *value == "foreign".to_owned() {
                Ok(Some(MultiArch::Foreign))
            } else if *value == "same".to_owned() {
                Ok(Some(MultiArch::Same))
            } else if *value == "no".to_owned() {
                Ok(Some(MultiArch::No))
            } else {
                Err(PakigeParseError::InvalidValue)
            }
        },
    }
}

/// The `depends` relationship field: absent, or a well-formed dependency expression.
pub fn set_depends(fields: &Fields) -> (r: Result<Option<DependsPackageList>, PakigeParseError>)
    ensures
        r is Err <==> relation_field(fields@, "depends"@) is Err,
        r is Err ==> r->Err_0 == PakigeParseError::InvalidValue,
        r is Ok ==> depends_view(r->Ok_0) == relation_field(fields@, "depends"@)->Ok_0,
{
    match relation_setter(fields, "depends") {
        Ok(Some(g)) => Ok(Some(DependsPackageList(g))),
        Ok(None) => Ok(None),
        Err(e) => Err(e),
    }
}

/// The `recommends` relationship field: absent, or a well-formed dependency expression.
pub fn set_recommends(fields: &Fields) -> (r: Result<Option<DependsPackageList>, PakigeParseError>)
    ensures
        r is Err <==> relation_field(fields@, "recommends"@) is Err,
        r is Err ==> r->Err_0 == PakigeParseError::InvalidValue,
        r is Ok ==> depends_view(r->Ok_0) == relation_field(fields@, "recommends"@)->Ok_0,
{
    match relation_setter(fields, "recommends") {
        Ok(Some(g)) => Ok(Some(DependsPackageList(g))),
        Ok(None) => Ok(None),
        Err(e) => Err(e),
    }
}

/// The `suggests` relationship field: absent, or a well-formed dependency expression.
pub fn set_suggests(fields: &Fields) -> (r: Result<Option<DependsPackageList>, PakigeParseError>)
    ensures
        r is Err <==> relation_field(fields@, "suggests"@) is Err,
        r is Err ==> r->Err_0 == PakigeParseError::InvalidValue,
        r is Ok ==> depends_view(r->Ok_0) == relation_field(fields@, "suggests"@)->Ok_0,
{
    match relation_setter(fields, "suggests") {
        Ok(Some(g)) => Ok(Some(DependsPackageList(g))),
        Ok(None) => Ok(None),
        Err(e) => Err(e),
    }
}

/// The `enhances` relationship field: absent, or a well-formed dependency expression.
pub fn set_enhances(fields: &Fields) -> (r: Result<Option<DependsPackageList>, PakigeParseError>)
    ensures
        r is Err <==> relation_field(fields@, "enhances"@) is Err,
        r is Err ==> r->Err_0 == PakigeParseError::InvalidValue,
        r is Ok ==> depends_view(r->Ok_0) == relation_field(fields@, "enhances"@)->Ok_0,
{
    match relation_setter(fields, "enhances") {
        Ok(Some(g)) => Ok(Some(DependsPackageList(g))),
        Ok(None) => Ok(None),
        Err(e) => Err(e),
    }
}

/// The `pre-depends` relationship field: absent, or a well-formed dependency expression.
pub fn set_pre_depends(fields: &Fields) -> (r: Result<Option<DependsPackageList>, PakigeParseError>)
    ensures
        r is Err <==> relation_field(fields@, "pre-depends"@) is Err,
        r is Err ==> r->Err_0 == PakigeParseError::InvalidValue,
        r is Ok ==> depends_view(r->Ok_0) == relation_field(fields@, "pre-depends"@)->Ok_0,
{
    match relation_setter(fields, "pre-depends") {
        Ok(Some(g)) => Ok(Some(DependsPackageList(g))),
        Ok(None) => Ok(None),
        Err(e) => Err(e),
    }
}

/// The `breaks` relationship field: absent, or a well-formed dependency expression.
pub fn set_breaks(fields: &Fields) -> (r: Result<Option<ProvidesPackageList>, PakigeParseError>)
    ensures
        r is Err <==> relation_field(fields@, "breaks"@) is Err,
        r is Err ==> r->Err_0 == PakigeParseError::InvalidValue,
        r is Ok ==> provides_view(r->Ok_0) == relation_field(fields@, "breaks"@)->Ok_0,
{
    match relation_setter(fields, "breaks") {
        Ok(Some(g)) => Ok(Some(ProvidesPackageList(g))),
        Ok(None) => Ok(None),
        Err(e) => Err(e),
    }
}

/// The `conflicts` relationship field: absent, or a well-formed dependency expression.
pub fn set_conflicts(fields: &Fields) -> (r: Result<Option<ProvidesPackageList>, PakigeParseError>)
    ensures
        r is Err <==> relation_field(fields@, "conflicts"@) is Err,
        r is Err ==> r->Err_0 == PakigeParseError::InvalidValue,
        r is Ok ==> provides_view(r->Ok_0) == relation_field(fields@, "conflicts"@)->Ok_0,
{
    match relation_setter(fields, "conflicts") {
        Ok(Some(g)) => Ok(Some(ProvidesPackageList(g))),
        Ok(None) => Ok(None),
        Err(e) => Err(e),
    }
}

/// The `provides` relationship field: absent, or a well-formed dependency expression.
pub fn set_provides(fields: &Fields) -> (r: Result<Option<ProvidesPackageList>, PakigeParseError>)
    ensures
        r is Err <==> relation_field(fields@, "provides"@) is Err,
        r is Err ==> r->Err_0 == PakigeParseError::InvalidValue,
        r is Ok ==> provides_view(r->Ok_0) == relation_field(fields@, "provides"@)->Ok_0,
{
    match relation_setter(fields, "provides") {
        Ok(Some(g)) => Ok(Some(ProvidesPackageList(g))),
        Ok(None) => Ok(None),
        Err(e) => Err(e),
    }
}

/// The `replaces` relationship field: absent, or a well-formed dependency expression.
pub fn set_replaces(fields: &Fields) -> (r: Result<Option<ProvidesPackageList>, PakigeParseError>)
    ensures
        r is Err <==> relation_field(fields@, "replaces"@) is Err,
        r is Err ==> r->Err_0 == PakigeParseError::InvalidValue,
        r is Ok ==> provides_view(r->Ok_0) == relation_field(fields@, "replaces"@)->Ok_0,
{
    match relation_setter(fields, "replaces") {
        Ok(Some(g)) => Ok(Some(ProvidesPackageList(g))),
        Ok(None) => Ok(None),
        Err(e) => Err(e),
    }
}

/// The `built-using` relationship field: absent, or a well-formed dependency expression.
pub fn set_built_using(fields: &Fields) -> (r: Result<Option<ProvidesPackageList>, PakigeParseError>)
    ensures
        r is Err <==> relation_field(fields@, "built-using"@) is Err,
        r is Err ==> r->Err_0 == PakigeParseError::InvalidValue,
        r is Ok ==> provides_view(r->Ok_0) == relation_field(fields@, "built-using"@)->Ok_0,
{
    match relation_setter(fields, "built-using") {
        Ok(Some(g)) => Ok(Some(ProvidesPackageList(g))),
        Ok(None) => Ok(None),
        Err(e) => Err(e),
    }
}

pub open spec fn relation_bad(f: FieldsModel, key: Seq<char>) -> bool {
    relation_field(f, key) is Err
}

/// The first error met while walking the fields in their fixed order: package,
/// source, version, section, priority, architecture, essential, the relationship
/// fields, installed-size, maintainer, description, homepage, built-using and
/// multi-arch. A missing mandatory field is reported where the walk reaches it.
pub open spec fn first_error(f: FieldsModel) -> Option<PakigeParseError> {
    if name_field(f, "package"@) is Err {
        Some(PakigeParseError::InvalidValue)
    } else if name_field(f, "package"@)->Ok_0 is None {
        Some(PakigeParseError::MissingMandatoryField)
    } else if name_field(f, "source"@) is Err || version_field(f) is Err {
        Some(PakigeParseError::InvalidValue)
    } else if version_field(f)->Ok_0 is None || lookup(f, "architecture"@) is None {
        Some(PakigeParseError::MissingMandatoryField)
    } else if essential_field(f) is Err || relation_bad(f, "depends"@) || relation_bad(f, "recommends"@)
        || relation_bad(f, "suggests"@) || relation_bad(f, "enhances"@) || relation_bad(f, "pre-depends"@)
        || relation_bad(f, "breaks"@) || relation_bad(f, "conflicts"@) || relation_bad(f, "provides"@)
        || relation_bad(f, "replaces"@) || size_field(f) is Err {
        Some(PakigeParseError::InvalidValue)
    } else if lookup(f, "maintainer"@) is None || lookup(f, "description"@) is None {
        Some(PakigeParseError::MissingMandatoryField)
    } else if relation_bad(f, "built-using"@) || multi_arch_field(f) is Err {
        Some(PakigeParseError::InvalidValue)
    } else {
        None
    }
}

/// The record `d` holds what the fields `f` say, with the defaults where an
/// optional field is absent.
pub open spec fn record_of(d: BinaryDeb, f: FieldsModel) -> bool {
    &&& d.package@ == lookup(f, "package"@)->Some_0
    &&& opt_view(d.source) == lookup(f, "source"@)
    &&& version_view(d.version) == version_field(f)->Ok_0->Some_0
    &&& opt_view(d.section) == lookup(f, "section"@)
    &&& d.priority is Some
    &&& d.priority->Some_0@ == (if lookup(f, "priority"@) is Some {
        lookup(f, "priority"@)->Some_0
    } else {
        default_priority()
    })
    &&& d.architecture@ == lookup(f, "architecture"@)->Some_0
    &&& d.essential == (essential_field(f)->Ok_0 == Some(true))
    &&& depends_view(d.depends) == relation_field(f, "depends"@)->Ok_0
    &&& depends_view(d.recommends) == relation_field(f, "recommends"@)->Ok_0
    &&& depends_view(d.suggests) == relation_field(f, "suggests"@)->Ok_0
    &&& depends_view(d.enhances) == relation_field(f, "enhances"@)->Ok_0
    &&& depends_view(d.pre_depends) == relation_field(f, "pre-depends"@)->Ok_0
    &&& provides_view(d.breaks) == relation_field(f, "breaks"@)->Ok_0
    &&& provides_view(d.conflicts) == relation_field(f, "conflicts"@)->Ok_0
    &&& provides_view(d.provides) == relation_field(f, "provides"@)->Ok_0
    &&& provides_view(d.replaces) == relation_field(f, "replaces"@)->Ok_0
    &&& d.installed_size == size_field(f)->Ok_0
    &&& d.maintainer@ == lookup(f, "maintainer"@)->Some_0
    &&& d.description@ == lookup(f, "description"@)->Some_0
    &&& opt_view(d.homepage) == lookup(f, "homepage"@)
    &&& provides_view(d.built_using) == relation_field(f, "built-using"@)->Ok_0
    &&& d.multi_arch == (if multi_arch_field(f)->Ok_0 is Some {
        multi_arch_field(f)->Ok_0->Some_0
    } else {
        MultiArch::No
    })
    &&& d.all_fields@ == f
}

impl BinaryDeb {
    /// Builds the record from the fields of a stanza, or reports the first
    /// error in the fixed field order.
    pub fn from_fields(fields: Fields) -> (r: Result<BinaryDeb, PakigeParseError>)
        ensures
            r is Err <==> first_error(fields@) is Some,
            r is Err ==> r->Err_0 == first_error(fields@)->Some_0,
            r is Ok ==> record_of(r->Ok_0, fields@),
    {
        let package = match set_package(&fields)? {
            Some(p) => p,
            None => return Err(PakigeParseError::MissingMandatoryField),
        };
        let source = set_source(&fields)?;
        let version = match set_version(&fields)? {
            Some(v) => v,
            None => return Err(PakigeParseError::MissingMandatoryField),
        };
        let section = set_section(&fields)?;
        let priority = set_priority(&fields)?;
        let architecture = match set_architecture(&fields)? {
            Some(a) => a,
            None => return Err(PakigeParseError::MissingMandatoryField),
        };
        let essential = match set_essential(&fields)? {
            Some(e) => e,
            None => false,
        };
        let depends = set_depends(&fields)?;
        let recommended = set_recommends(&fields)?;
        let suggests = set_suggests(&fields)?;
        let enhances = set_enhances(&fields)?;
        let pre_depends = set_pre_depends(&fields)?;
        let breaks = set_breaks(&fields)?;
        let conflicts = set_conflicts(&fields)?;
        let provides = set_provides(&fields)?;
        let replaces = set_replaces(&fields)?;
        let installed_size = set_installed_size(&fields)?;
        let maintainer = match set_maintainer(&fields)? {
            Some(m) => m,
            None => return Err(PakigeParseError::MissingMandatoryField),
        };
        let description = match set_description(&fields)? {
            Some(d) => d,
            None => return Err(PakigeParseError::MissingMandatoryField),
        };
        let homepage = set_homepage(&fields)?;
        let built_using = set_built_using(&fields)?;
        let multi_arch = match set_multi_arch(&fields)? {
            Some(m) => m,
            None => MultiArch::No,
        };
        Ok(BinaryDeb {
            package,
            source,
            version,
            section,
            priority,
            architecture,
            essential,
            depends,
            recommends: recommended,
            suggests,
            enhances,
            pre_depends,
            breaks,
            conflicts,
            provides,
            replaces,
            installed_size,
            maintainer,
            description,
            homepage,
            built_using,
            multi_arch,
            all_fields: fields,
        })
    }

    /// Parses the text of one stanza into a record.
    pub fn from_str(data: &str) -> (r: Result<BinaryDeb, PakigeParseError>)
        ensures
            table_of(data@) is Err ==> r == Err::<BinaryDeb, PakigeParseError>(table_of(data@)->Err_0),
            table_of(data@) is Ok ==> (r is Err <==> first_error(table_of(data@)->Ok_0) is Some),
            table_of(data@) is Ok && r is Err ==> r->Err_0 == first_error(table_of(data@)->Ok_0)->Some_0,
            r is Ok ==> table_of(data@) is Ok && record_of(r->Ok_0, table_of(data@)->Ok_0),
    {
        let fields = str_to_table(data)?;
        BinaryDeb::from_fields(fields)
    }
}

} // verus!
