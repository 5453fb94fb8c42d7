use std::cmp::Ordering;

use module_definitions::ast::Identifier;
use module_definitions::module_name::ModuleName;
use module_definitions::qname::QName;
use module_definitions::text::{compare_text, starts_with_char, str_equals, Order, TextRange};

fn qname(id: &str, start: u32, end: u32, module: &str) -> QName {
    QName::new(
        Identifier { id: id.to_owned(), range: TextRange::new(start, end) },
        ModuleName::from_str(module),
    )
}

fn std_order(x: Ordering) -> Order {
    match x {
        Ordering::Less => Order::Less,
        Ordering::Equal => Order::Equal,
        Ordering::Greater => Order::Greater,
    }
}

#[test]
fn test_module_name_views() {
    let name = ModuleName::from_str("os.path");
    assert_eq!(name.as_str(), "os.path");
    assert_eq!(ModuleName::from_name(&"a.b".to_owned()).as_str(), "a.b");
    assert_eq!(ModuleName::builtins().as_str(), "builtins");
    assert!(name.equals(&ModuleName::from_str("os.path")));
    assert!(!name.equals(&ModuleName::from_str("os")));
    assert_eq!(name.compare(&ModuleName::from_str("os")), Order::Greater);
    assert_eq!(name.compare(&ModuleName::from_str("os.path")), Order::Equal);
    assert_eq!(name.compare(&ModuleName::from_str("sys")), Order::Less);
}

#[test]
fn test_first_component() {
    assert_eq!(ModuleName::from_str("mod.ule").first_component(), "mod");
    assert_eq!(ModuleName::from_str("a.b.c").first_component(), "a");
    assert_eq!(ModuleName::from_str("single").first_component(), "single");
    assert_eq!(ModuleName::from_str("").first_component(), "");
    assert_eq!(ModuleName::from_str(".x").first_component(), "");
    assert_eq!(ModuleName::from_str("\u{e9}t\u{e9}.x").first_component(), "\u{e9}t\u{e9}");
}

fn resolve(current: &str, is_init: bool, dots: u32, suffix: Option<&str>) -> Option<String> {
    let suffix = suffix.map(|x| x.to_owned());
    ModuleName::from_str(current)
        .new_maybe_relative(is_init, dots, suffix.as_ref())
        .map(|x| x.as_str().to_owned())
}

#[test]
fn test_absolute_import_names_its_module() {
    assert_eq!(resolve("a.b", false, 0, Some("x.y")), Some("x.y".to_owned()));
    assert_eq!(resolve("a.b", true, 0, Some("x")), Some("x".to_owned()));
    assert_eq!(resolve("a.b", false, 0, None), Some("a.b".to_owned()));
}

#[test]
fn test_relative_import_in_module() {
    assert_eq!(resolve("a.b.c", false, 1, None), Some("a.b".to_owned()));
    assert_eq!(resolve("a.b.c", false, 1, Some("x")), Some("a.b.x".to_owned()));
    assert_eq!(resolve("a.b.c", false, 2, Some("x.y")), Some("a.x.y".to_owned()));
    assert_eq!(resolve("a.b.c", false, 3, Some("x")), Some("x".to_owned()));
    assert_eq!(resolve("a.b.c", false, 3, None), Some("".to_owned()));
    assert_eq!(resolve("a.b.c", false, 4, Some("x")), None);
    assert_eq!(resolve("a.b.c", false, 4, None), None);
    assert_eq!(resolve("main", false, 1, Some("x")), Some("x".to_owned()));
    assert_eq!(resolve("main", false, 2, Some("x")), None);
}

#[test]
fn test_relative_import_in_package_initializer() {
    assert_eq!(resolve("a.b", true, 1, None), Some("a.b".to_owned()));
    assert_eq!(resolve("a.b", true, 1, Some("x")), Some("a.b.x".to_owned()));
    assert_eq!(resolve("a.b", true, 2, Some("x")), Some("a.x".to_owned()));
    assert_eq!(resolve("a.b", true, 3, Some("x")), Some("x".to_owned()));
    assert_eq!(resolve("a.b", true, 4, Some("x")), None);
    assert_eq!(resolve("a.b", true, u32::MAX, Some("x")), None);
}

#[test]
fn test_text_helpers() {
    assert!(str_equals("__all__", "__all__"));
    assert!(!str_equals("__all__", "__all_"));
    assert!(!str_equals("__all__", "__alL__"));
    assert!(str_equals("", ""));
    assert!(!str_equals("", "a"));
    assert!(str_equals("\u{e9}", "\u{e9}"));
    assert!(starts_with_char("_x", '_'));
    assert!(starts_with_char("_", '_'));
    assert!(!starts_with_char("x_", '_'));
    assert!(!starts_with_char("", '_'));
}

#[test]
fn test_compare_text_is_the_order_of_strings() {
    let samples = ["", "a", "A", "ab", "abc", "abd", "b", "_", "z\u{e9}", "z\u{f1}", "\u{10348}", "\u{ff5e}", "zz"];
    for a in samples {
        for b in samples {
            assert_eq!(compare_text(a, b), std_order(a.cmp(b)), "{a:?} {b:?}");
        }
    }
    assert_eq!(compare_text("ab", "abc"), Order::Less);
    assert_eq!(compare_text("b", "abc"), Order::Greater);
    assert_eq!(compare_text("abc", "abc"), Order::Equal);
}

#[test]
fn test_qname_accessors() {
    let q = qname("x", 3, 4, "pkg.mod");
    assert_eq!(q.id(), "x");
    assert_eq!(q.range(), TextRange::new(3, 4));
    assert_eq!(q.fmt_name(), "x");
    assert_eq!(q.fmt_with_module(), "pkg.mod.x");
    assert_eq!(q.fmt_with_location("1:4"), "pkg.mod.x@1:4");
}

#[test]
fn test_same_text_at_different_ranges_is_different() {
    let a = qname("x", 0, 1, "m");
    let b = qname("x", 5, 6, "m");
    let c = qname("x", 0, 2, "m");
    assert_ne!(a, b);
    assert_ne!(a, c);
    assert_eq!(a, qname("x", 0, 1, "m"));
    assert_ne!(a, qname("x", 0, 1, "n"));
    assert!(a < b);
    assert!(a < c);
    assert!(c < b);
    assert_eq!(a.compare(&b), Order::Less);
    assert_eq!(b.compare(&a), Order::Greater);
    assert_eq!(a.compare(&a), Order::Equal);
}

#[test]
fn test_qnames_sort_by_text_start_end_module() {
    let sorted = vec![
        qname("a", 9, 9, "z"),
        qname("b", 0, 1, "m"),
        qname("b", 0, 1, "n"),
        qname("b", 0, 2, "a"),
        qname("b", 1, 1, "a"),
        qname("ba", 0, 0, "a"),
        qname("c", 0, 0, "a"),
    ];
    let mut shuffled = vec![
        sorted[4].clone(),
        sorted[6].clone(),
        sorted[1].clone(),
        sorted[0].clone(),
        sorted[5].clone(),
        sorted[3].clone(),
        sorted[2].clone(),
    ];
    shuffled.sort();
    assert_eq!(shuffled, sorted);
    for (i, a) in sorted.iter().enumerate() {
        for (j, b) in sorted.iter().enumerate() {
            assert_eq!(a.partial_cmp(b), Some(i.cmp(&j)));
            assert_eq!(a.cmp(b), i.cmp(&j));
            assert_eq!(a.compare(b), std_order(i.cmp(&j)));
            assert_eq!(a == b, i == j);
        }
    }
}
