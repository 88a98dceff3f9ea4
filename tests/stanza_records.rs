use pakige::deb::{
    set_essential, set_installed_size, set_multi_arch, set_package, set_priority, BinaryDeb,
    MultiArch,
};
use pakige::stanza::str_to_table;
use pakige::PakigeParseError;

const BASE: &str = "Package: fooutils\nVersion: 1:2.0-3\nArchitecture: amd64\nMaintainer: A. Person <a@example.com>\nDescription: does foo things";

fn with(extra: &str) -> String {
    format!("{}\n{}", BASE, extra)
}

#[test]
fn end_to_end_record() {
    let text = "Package: fooutils\nVersion: 1:2.0-3\nArchitecture: amd64\nMaintainer: A. Person <a@example.com>\nDescription: does foo things\nDepends: libc6 (>= 2.17), libbar | libbaz\n";
    let d = BinaryDeb::from_str(text).unwrap();
    assert_eq!(d.package, "fooutils");
    assert_eq!(d.version.epoch, 1);
    assert_eq!(d.version.upstream, "2.0");
    assert_eq!(d.version.revision, "3");
    assert_eq!(d.architecture, "amd64");
    assert_eq!(d.maintainer, "A. Person <a@example.com>");
    assert_eq!(d.description, "does foo things");
    let deps = d.depends.unwrap().0;
    assert_eq!(deps.len(), 2);
    assert_eq!(deps[0].len(), 1);
    assert_eq!(deps[0][0].package, "libc6");
    let c = deps[0][0].version.as_ref().unwrap();
    assert_eq!(c.operation, pakige::VerOp::GtEq);
    assert_eq!(c.version_string.upstream, "2.17");
    assert_eq!(deps[1].len(), 2);
    assert_eq!(deps[1][0].package, "libbar");
    assert_eq!(deps[1][1].package, "libbaz");
    assert_eq!(d.priority.as_deref(), Some("optional"));
    assert!(!d.essential);
    assert_eq!(d.multi_arch, MultiArch::No);
    assert!(d.recommends.is_none());
    assert!(d.source.is_none());
    assert!(d.installed_size.is_none());
}

#[test]
fn continuation_line_is_folded_verbatim() {
    let f = str_to_table("Description: short\n more text\n .\n  indented").unwrap();
    assert_eq!(f.entries.len(), 1);
    assert_eq!(f.entries[0].0, "description");
    assert_eq!(f.entries[0].1, "short\n more text\n .\n  indented");
}

#[test]
fn names_are_lowercased_and_values_trimmed() {
    let f = str_to_table("  Pre-Depends:   x1  \nFOO:bar").unwrap();
    assert_eq!(f.entries[0].0, "pre-depends");
    assert_eq!(f.entries[0].1, "x1");
    assert_eq!(f.entries[1].0, "foo");
    assert_eq!(f.entries[1].1, "bar");
    assert_eq!(f.get("foo").map(|s| s.as_str()), Some("bar"));
    assert!(f.get("FOO").is_none());
}

#[test]
fn duplicate_field_is_an_error() {
    assert_eq!(
        str_to_table("Package: x\nPackage: x").unwrap_err(),
        PakigeParseError::DuplicateField
    );
    assert_eq!(
        str_to_table("Package: x\npackage: y").unwrap_err(),
        PakigeParseError::DuplicateField
    );
}

#[test]
fn whitespace_stanza_is_empty_input() {
    assert_eq!(str_to_table("   \n\t \n").unwrap_err(), PakigeParseError::EmptyInput);
    assert_eq!(str_to_table("").unwrap_err(), PakigeParseError::EmptyInput);
    assert_eq!(BinaryDeb::from_str(" ").unwrap_err(), PakigeParseError::EmptyInput);
}

#[test]
fn malformed_lines_are_format_errors() {
    assert_eq!(str_to_table("no colon here").unwrap_err(), PakigeParseError::InvalidFormat);
    assert_eq!(str_to_table("a: b\n\nc: d").unwrap_err(), PakigeParseError::InvalidFormat);
    assert_eq!(str_to_table("#a: b").unwrap_err(), PakigeParseError::InvalidFormat);
    assert_eq!(str_to_table("-a: b").unwrap_err(), PakigeParseError::InvalidFormat);
    assert_eq!(str_to_table("a b: c").unwrap_err(), PakigeParseError::InvalidFormat);
    assert_eq!(str_to_table(": c").unwrap_err(), PakigeParseError::InvalidFormat);
    assert_eq!(str_to_table("a: b\n\tc").unwrap_err(), PakigeParseError::InvalidFormat);
}

#[test]
fn missing_version_is_missing_mandatory_field() {
    let text = "Package: fooutils\nArchitecture: amd64\nMaintainer: A. Person <a@example.com>\nDescription: does foo things";
    assert_eq!(BinaryDeb::from_str(text).unwrap_err(), PakigeParseError::MissingMandatoryField);
}

#[test]
fn each_mandatory_field_is_required() {
    for key in ["Package", "Version", "Architecture", "Maintainer", "Description"].iter() {
        let text: Vec<&str> = BASE.lines().filter(|l| !l.starts_with(key)).collect();
        assert_eq!(
            BinaryDeb::from_str(&text.join("\n")).unwrap_err(),
            PakigeParseError::MissingMandatoryField
        );
    }
}

#[test]
fn essential_must_be_yes_or_no() {
    assert_eq!(BinaryDeb::from_str(&with("Essential: maybe")).unwrap_err(), PakigeParseError::InvalidValue);
    assert_eq!(BinaryDeb::from_str(&with("Essential: Yes")).unwrap_err(), PakigeParseError::InvalidValue);
    assert!(BinaryDeb::from_str(&with("Essential: yes")).unwrap().essential);
}

#[test]
fn priority_defaults_to_optional() {
    let d = BinaryDeb::from_str(BASE).unwrap();
    assert_eq!(d.priority.as_deref(), Some("optional"));
    let d = BinaryDeb::from_str(&with("Priority: required")).unwrap();
    assert_eq!(d.priority.as_deref(), Some("required"));
}

#[test]
fn field_values_are_validated() {
    assert_eq!(BinaryDeb::from_str(&with("Installed-Size: 12k")).unwrap_err(), PakigeParseError::InvalidValue);
    assert_eq!(BinaryDeb::from_str(&with("Installed-Size: 99999999999999999999")).unwrap_err(), PakigeParseError::InvalidValue);
    assert_eq!(BinaryDeb::from_str(&with("Multi-Arch: sometimes")).unwrap_err(), PakigeParseError::InvalidValue);
    assert_eq!(BinaryDeb::from_str(&with("Depends: foo |")).unwrap_err(), PakigeParseError::InvalidValue);
    assert_eq!(BinaryDeb::from_str(&with("Depends:")).unwrap_err(), PakigeParseError::InvalidValue);
    assert_eq!(BinaryDeb::from_str(&with("Source: Bad_Name")).unwrap_err(), PakigeParseError::InvalidValue);
    let bad_version = BASE.replace("1:2.0-3", "x:y");
    assert_eq!(BinaryDeb::from_str(&bad_version).unwrap_err(), PakigeParseError::InvalidValue);
    let bad_name = BASE.replace("fooutils", "F");
    assert_eq!(BinaryDeb::from_str(&bad_name).unwrap_err(), PakigeParseError::InvalidValue);
}

#[test]
fn first_error_in_field_order_wins() {
    let text = "Package: fooutils\nVersion: 1.0\nMaintainer: m\nDescription: d\nEssential: maybe";
    assert_eq!(BinaryDeb::from_str(text).unwrap_err(), PakigeParseError::MissingMandatoryField);
    let text = "Package: BAD\nVersion: x\nArchitecture: all";
    assert_eq!(BinaryDeb::from_str(text).unwrap_err(), PakigeParseError::InvalidValue);
}

#[test]
fn optional_fields_are_read() {
    let d = BinaryDeb::from_str(&with(
        "Installed-Size: 1024\nMulti-Arch: foreign\nEssential: no\nSection: utils\nHomepage: https://example.com\nSource: foo-src\nBuilt-Using: gcc-12 (= 12.2.0-14)\nConflicts: oldfoo",
    ))
    .unwrap();
    assert_eq!(d.installed_size, Some(1024));
    assert_eq!(d.multi_arch, MultiArch::Foreign);
    assert!(!d.essential);
    assert_eq!(d.section.as_deref(), Some("utils"));
    assert_eq!(d.homepage.as_deref(), Some("https://example.com"));
    assert_eq!(d.source.as_deref(), Some("foo-src"));
    assert_eq!(d.built_using.unwrap().0[0][0].package, "gcc-12");
    assert_eq!(d.conflicts.unwrap().0[0][0].package, "oldfoo");
    assert_eq!(d.all_fields.get("multi-arch").map(|s| s.as_str()), Some("foreign"));
}

#[test]
fn setters_read_their_field() {
    let f = str_to_table("Package: abc\nEssential: yes\nMulti-Arch: same\nInstalled-Size: 7").unwrap();
    assert_eq!(set_package(&f).unwrap().as_deref(), Some("abc"));
    assert_eq!(set_essential(&f).unwrap(), Some(true));
    assert_eq!(set_multi_arch(&f).unwrap(), Some(MultiArch::Same));
    assert_eq!(set_installed_size(&f).unwrap(), Some(7));
    assert_eq!(set_priority(&f).unwrap().as_deref(), Some("optional"));
    let empty = str_to_table("X: y").unwrap();
    assert_eq!(set_package(&empty).unwrap(), None);
    assert_eq!(set_essential(&empty).unwrap(), None);
}

#[test]
fn multi_arch_default_is_no() {
    assert_eq!(MultiArch::default(), MultiArch::No);
}

#[test]
fn reparsing_rendered_fields_gives_equal_record() {
    let text = with("Depends: libc6 (>= 2.17), libbar | libbaz\nX-Notes: a\n b  \n .\n c");
    let first = BinaryDeb::from_str(&text).unwrap();
    let rendered = first.all_fields.to_text();
    let second = BinaryDeb::from_str(&rendered).unwrap();
    assert_eq!(first.all_fields.entries, second.all_fields.entries);
    assert_eq!(first.package, second.package);
    assert_eq!(first.version.upstream, second.version.upstream);
    assert_eq!(first.description, second.description);
    assert_eq!(first.depends.unwrap().0.len(), second.depends.unwrap().0.len());
}

#[test]
fn fields_render_as_name_colon_value_lines() {
    let f = str_to_table("Package: abc\nDescription: x\n more").unwrap();
    assert_eq!(f.to_text(), "package:abc\ndescription:x\n more");
}

#[test]
fn error_messages() {
    assert_eq!(PakigeParseError::EmptyInput.message(), "Input is empty.");
    assert_eq!(PakigeParseError::DuplicateField.message(), "A given field was present twice in the stanza.");
}
