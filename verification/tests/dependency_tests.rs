use fml::constraint::{CompareOp, VersionConstraint};
use fml::dependency::{parse_dep_type_and_name, Dependency, DependencyType};
use fml::records::parse_dependencies;
use fml::version::Version;

#[test]
fn parse_required_no_version() {
    let dep: Dependency = "base".parse().unwrap();
    assert_eq!(dep.name, "base");
    assert_eq!(dep.dep_type, DependencyType::Required);
    assert_eq!(dep.version_req, VersionConstraint::Any);
}

#[test]
fn parse_required_with_version() {
    let dep: Dependency = "base >= 2.0.0".parse().unwrap();
    assert_eq!(dep.name, "base");
    assert_eq!(dep.dep_type, DependencyType::Required);
    assert!(dep.version_req.matches(&Version::new(2, 0, 0)));
    assert!(!dep.version_req.matches(&Version::new(1, 9, 0)));
}

#[test]
fn parse_incompatible() {
    let dep: Dependency = "! incompatible-mod".parse().unwrap();
    assert_eq!(dep.name, "incompatible-mod");
    assert_eq!(dep.dep_type, DependencyType::Incompatible);
}

#[test]
fn parse_optional() {
    let dep: Dependency = "? quality".parse().unwrap();
    assert_eq!(dep.name, "quality");
    assert_eq!(dep.dep_type, DependencyType::Optional);
}

#[test]
fn parse_hidden_optional() {
    let dep: Dependency = "(?) hidden-lib".parse().unwrap();
    assert_eq!(dep.name, "hidden-lib");
    assert_eq!(dep.dep_type, DependencyType::Optional);
}

#[test]
fn parse_no_load_order() {
    let dep: Dependency = "~ some-mod >= 1.0.0".parse().unwrap();
    assert_eq!(dep.name, "some-mod");
    assert_eq!(dep.dep_type, DependencyType::Required);
    assert!(dep.version_req.matches(&Version::new(1, 0, 0)));
    assert!(dep.version_req.matches(&Version::new(2, 0, 0)));
    assert!(!dep.version_req.matches(&Version::new(0, 9, 0)));
}

#[test]
fn parse_exact_version() {
    let dep: Dependency = "some-mod = 1.2.3".parse().unwrap();
    assert_eq!(dep.name, "some-mod");
    assert_eq!(dep.dep_type, DependencyType::Required);
    assert!(dep.version_req.matches(&Version::new(1, 2, 3)));
    assert!(!dep.version_req.matches(&Version::new(1, 2, 4)));
}

#[test]
fn parse_less_than() {
    let dep: Dependency = "some-mod < 2.0.0".parse().unwrap();
    assert_eq!(dep.name, "some-mod");
    assert!(dep.version_req.matches(&Version::new(1, 9, 9)));
    assert!(!dep.version_req.matches(&Version::new(2, 0, 0)));
}

#[test]
fn parse_mod_name_with_spaces() {
    let dep: Dependency = "? Krastorio 2".parse().unwrap();
    assert_eq!(dep.name, "Krastorio 2");
    assert_eq!(dep.dep_type, DependencyType::Optional);
}

#[test]
fn parse_gives_the_exact_constraint() {
    let dep = Dependency::parse("flib > 0.12.4").unwrap();
    assert_eq!(
        dep.version_req,
        VersionConstraint::Bound { op: CompareOp::Greater, version: Version::new(0, 12, 4) }
    );
    let dep = Dependency::parse("flib<=10.20.30").unwrap();
    assert_eq!(
        dep.version_req,
        VersionConstraint::Bound { op: CompareOp::LessEq, version: Version::new(10, 20, 30) }
    );
    assert_eq!(dep.name, "flib");
}

#[test]
fn parse_tolerates_white_space_around_the_parts() {
    let dep = Dependency::parse("  \t(?)   my mod_1-x   >=   1.2.3 \n").unwrap();
    assert_eq!(dep.name, "my mod_1-x");
    assert_eq!(dep.dep_type, DependencyType::Optional);
    assert_eq!(
        dep.version_req,
        VersionConstraint::Bound { op: CompareOp::GreaterEq, version: Version::new(1, 2, 3) }
    );
    let dep = Dependency::parse("!bad").unwrap();
    assert_eq!(dep.name, "bad");
    assert_eq!(dep.dep_type, DependencyType::Incompatible);
    let dep = Dependency::parse("x").unwrap();
    assert_eq!(dep.name, "x");
}

#[test]
fn malformed_declarations_are_refused() {
    for text in [
        "",
        "   ",
        "?",
        "!",
        "(?)",
        "( ?) name",
        "@ name",
        "name >=",
        "name >= ",
        "name >= 1.0",
        "name >= 1",
        "name >= 1.0.0.0",
        "name >= 1.0.0 extra",
        "name 1.0.0",
        "name == 1.0.0",
        "name != 1.0.0",
        "name => 1.0.0",
        "name >> 1.0.0",
        "name >= 01.0.0",
        "name >= 1.00.0",
        "name >= 99999999999999999999.0.0",
        "name >= a.b.c",
        "na\tme",
        "nämé",
        "name,other",
    ] {
        let r = Dependency::parse(text);
        assert!(r.is_err(), "{:?} should be malformed", text);
        assert_eq!(r.unwrap_err().text, text);
    }
}

#[test]
fn largest_version_numbers_are_read() {
    let dep = Dependency::parse("name = 18446744073709551615.0.7").unwrap();
    assert_eq!(
        dep.version_req,
        VersionConstraint::Bound {
            op: CompareOp::Exact,
            version: Version::new(18446744073709551615, 0, 7)
        }
    );
    assert!(Dependency::parse("name = 18446744073709551616.0.7").is_err());
}

#[test]
fn head_of_a_declaration() {
    let (kind, name, rest) = parse_dep_type_and_name("~ some-mod >= 1.0.0").unwrap();
    assert_eq!(kind, DependencyType::Required);
    assert_eq!(name, "some-mod");
    assert_eq!(rest, " >= 1.0.0");
    let (kind, name, rest) = parse_dep_type_and_name("! bad mod  ").unwrap();
    assert_eq!(kind, DependencyType::Incompatible);
    assert_eq!(name, "bad mod");
    assert_eq!(rest, "  ");
    assert!(parse_dep_type_and_name(" ( name").is_err());
}

#[test]
fn one_malformed_declaration_does_not_spoil_the_list() {
    let texts: Vec<String> =
        vec!["base >= 1.1.0", "?? broken", "? quality", "", "! other"].into_iter().map(String::from).collect();
    let deps = parse_dependencies(&texts);
    let names: Vec<&str> = deps.iter().map(|d| d.name.as_str()).collect();
    assert_eq!(names, vec!["base", "quality", "other"]);
    assert_eq!(deps[1].dep_type, DependencyType::Optional);
    assert_eq!(deps[2].dep_type, DependencyType::Incompatible);
}

#[test]
fn written_dependencies_are_read_back() {
    for text in ["base", "? quality", "! bad mod", "some-mod >= 1.0.0", "? Krastorio 2 < 2.0.0", "flib = 0.12.4"] {
        let dep = Dependency::parse(text).unwrap();
        assert_eq!(dep.to_text(), text);
        let again = Dependency::parse(&dep.to_text()).unwrap();
        assert_eq!(again.name, dep.name);
        assert_eq!(again.dep_type, dep.dep_type);
        assert_eq!(again.version_req, dep.version_req);
    }
    assert_eq!(Dependency::parse("(?)  hidden-lib>=1.2.3 ").unwrap().to_text(), "? hidden-lib >= 1.2.3");
    assert_eq!(Dependency::parse("~ no-order").unwrap().to_text(), "no-order");
}
