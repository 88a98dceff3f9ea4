use pakige::depends::{parse_relationship, DependsPackageList, PackageRef};
use pakige::{PakigeParseError, VerOp};

fn names(g: &Vec<Vec<PackageRef>>) -> Vec<Vec<String>> {
    g.iter().map(|alts| alts.iter().map(|r| r.package.clone()).collect()).collect()
}

#[test]
fn alternatives_and_groups() {
    let g = parse_relationship("foo (>= 1.2) | bar, baz").unwrap();
    assert_eq!(names(&g), vec![vec!["foo".to_string(), "bar".to_string()], vec!["baz".to_string()]]);
    let c = g[0][0].version.as_ref().unwrap();
    assert_eq!(c.operation, VerOp::GtEq);
    assert_eq!(c.version_string.upstream, "1.2");
    assert!(g[0][1].version.is_none());
    assert!(g[1][0].version.is_none());
}

#[test]
fn empty_group_is_invalid() {
    assert_eq!(parse_relationship("foo,,").unwrap_err(), PakigeParseError::InvalidValue);
    assert_eq!(parse_relationship("foo |").unwrap_err(), PakigeParseError::InvalidValue);
    assert_eq!(parse_relationship("").unwrap_err(), PakigeParseError::InvalidValue);
}

#[test]
fn unmatched_parenthesis_is_invalid() {
    assert_eq!(parse_relationship("foo (>= 1.2").unwrap_err(), PakigeParseError::InvalidValue);
    assert_eq!(parse_relationship("foo (1.2)").unwrap_err(), PakigeParseError::InvalidValue);
    assert_eq!(parse_relationship("foo (=> 1.2)").unwrap_err(), PakigeParseError::InvalidValue);
}

#[test]
fn operators_are_read_exactly() {
    let cases = [("<<", VerOp::Lt), ("<=", VerOp::LtEq), ("=", VerOp::Eq), (">=", VerOp::GtEq), (">>", VerOp::Gt), ("<", VerOp::LtEq), (">", VerOp::GtEq)];
    for (text, op) in cases.iter() {
        let g = parse_relationship(&format!("foo ({} 1.0)", text)).unwrap();
        assert_eq!(g[0][0].version.as_ref().unwrap().operation, *op);
    }
}

#[test]
fn architecture_qualifier() {
    let g = parse_relationship("python3:any (>= 3.9~), libc6:amd64").unwrap();
    assert_eq!(g[0][0].package, "python3");
    assert_eq!(g[0][0].architecture.as_deref(), Some("any"));
    assert_eq!(g[0][0].version.as_ref().unwrap().version_string.upstream, "3.9~");
    assert_eq!(g[1][0].architecture.as_deref(), Some("amd64"));
    assert_eq!(parse_relationship("foo:").unwrap_err(), PakigeParseError::InvalidValue);
}

#[test]
fn package_names_are_checked() {
    assert_eq!(parse_relationship("Foo").unwrap_err(), PakigeParseError::InvalidValue);
    assert_eq!(parse_relationship("f").unwrap_err(), PakigeParseError::InvalidValue);
    assert_eq!(parse_relationship("foo bar").unwrap_err(), PakigeParseError::InvalidValue);
    assert!(parse_relationship("g++-12, lib.x-1+2").is_ok());
}

#[test]
fn whitespace_is_ignored() {
    let g = DependsPackageList::parse("  a1 (<<2:3-4)|b2 ,\n c3  ").unwrap();
    assert_eq!(names(&g.0), vec![vec!["a1".to_string(), "b2".to_string()], vec!["c3".to_string()]]);
    let c = g.0[0][0].version.as_ref().unwrap();
    assert_eq!(c.operation, VerOp::Lt);
    assert_eq!(c.version_string.epoch, 2);
    assert_eq!(c.version_string.revision, "4");
}
