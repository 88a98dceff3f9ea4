use std::cmp::Ordering;

use pakige::version::{compare_part, Version};
use pakige::PakigeParseError;

fn v(s: &str) -> Version {
    Version::parse(s).unwrap()
}

#[test]
fn parse_splits_epoch_upstream_revision() {
    let x = v("1:2.0-3");
    assert_eq!(x.epoch, 1);
    assert_eq!(x.upstream, "2.0");
    assert_eq!(x.revision, "3");
}

#[test]
fn parse_defaults_epoch_and_revision() {
    let x = v("2.0");
    assert_eq!(x.epoch, 0);
    assert_eq!(x.upstream, "2.0");
    assert_eq!(x.revision, "");
}

#[test]
fn parse_splits_at_last_hyphen() {
    let x = v("1.0-beta-2");
    assert_eq!(x.upstream, "1.0-beta");
    assert_eq!(x.revision, "2");
}

#[test]
fn parse_rejects_malformed_version() {
    assert_eq!(Version::parse("").unwrap_err(), PakigeParseError::InvalidValue);
    assert_eq!(Version::parse("a:1.0").unwrap_err(), PakigeParseError::InvalidValue);
    assert_eq!(Version::parse("1.0-").unwrap_err(), PakigeParseError::InvalidValue);
    assert_eq!(Version::parse("1 0").unwrap_err(), PakigeParseError::InvalidValue);
}

#[test]
fn from_parts_fills_empty_revision() {
    let x = Version::from_parts(3, "1.2".to_string(), None);
    assert_eq!(x.revision, "");
    let y = Version::from_parts(3, "1.2".to_string(), Some("4".to_string()));
    assert_eq!(y.revision, "4");
}

#[test]
fn epoch_dominates() {
    assert_eq!(v("1:1.0-1").compare(&v("1.0-1")), Ordering::Greater);
    assert_eq!(v("1.0-1").compare(&v("1:1.0-1")), Ordering::Less);
}

#[test]
fn tilde_sorts_before_nothing() {
    assert_eq!(v("1.0~rc1").compare(&v("1.0")), Ordering::Less);
    assert_eq!(v("1.0~~").compare(&v("1.0~")), Ordering::Less);
}

#[test]
fn empty_run_sorts_below_letters() {
    assert_eq!(v("1.0").compare(&v("1.0a")), Ordering::Less);
    assert_eq!(v("1.0a").compare(&v("1.0")), Ordering::Greater);
}

#[test]
fn digit_runs_compare_numerically() {
    assert_eq!(v("1.9").compare(&v("1.10")), Ordering::Less);
    assert_eq!(v("1.010").compare(&v("1.10")), Ordering::Equal);
}

#[test]
fn letters_sort_before_other_characters() {
    assert_eq!(compare_part("1.0a", "1.0+"), -1);
    assert_eq!(compare_part("1.0+", "1.0a"), 1);
    assert_eq!(compare_part("a", "b"), -1);
}

#[test]
fn revision_breaks_ties() {
    assert_eq!(v("1.0-1").compare(&v("1.0-2")), Ordering::Less);
    assert_eq!(v("1.0").compare(&v("1.0-0")), Ordering::Equal);
    assert_eq!(v("0:1.0-1").compare(&v("1.0-1")), Ordering::Equal);
}

#[test]
fn order_is_antisymmetric_and_transitive() {
    let all = ["1.0~rc1", "1.0", "1.0a", "1.0-1", "1.9", "1.10", "1:0.1", "2.0+b1", "2.0"];
    for a in all.iter() {
        for b in all.iter() {
            let ab = v(a).compare(&v(b));
            let ba = v(b).compare(&v(a));
            assert_eq!(ab, ba.reverse());
            for c in all.iter() {
                if ab != Ordering::Greater && v(b).compare(&v(c)) != Ordering::Greater {
                    assert_ne!(v(a).compare(&v(c)), Ordering::Greater);
                }
            }
        }
    }
}
