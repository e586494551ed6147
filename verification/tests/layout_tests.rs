use lineup::layout::{name_lt, optimal_order, struct_layout, TypeInfo};
use lineup::paths::{go_path_excluded, should_skip, ts_path_excluded, IgnorePatterns};

fn info(size: u64, align: u64) -> TypeInfo {
    TypeInfo { size, align, approximate: false }
}

fn chars(s: &str) -> Vec<char> {
    s.chars().collect()
}

#[test]
fn layout_with_padding() {
    assert_eq!(struct_layout(&[info(1, 1), info(8, 8), info(1, 1)]), Some((24, 8)));
    assert_eq!(struct_layout(&[info(8, 8), info(1, 1), info(1, 1)]), Some((16, 8)));
    assert_eq!(struct_layout(&[info(2, 2), info(1, 1)]), Some((4, 2)));
    assert_eq!(struct_layout(&[info(1, 1), info(4, 4), info(2, 2)]), Some((12, 4)));
}

#[test]
fn layout_of_nothing() {
    assert_eq!(struct_layout(&[]), Some((0, 1)));
    assert_eq!(struct_layout(&[info(0, 8)]), Some((0, 8)));
}

#[test]
fn layout_that_overflows() {
    assert_eq!(struct_layout(&[info(u64::MAX, 1), info(1, 1)]), None);
    assert_eq!(struct_layout(&[info(u64::MAX - 2, 1), info(1, 8)]), None);
}

#[test]
fn suggested_order() {
    let infos = [info(1, 1), info(8, 8), info(4, 4), info(1, 1), info(16, 8)];
    let names = vec![chars("b"), chars("x"), chars("y"), chars("a"), chars("s")];
    assert_eq!(optimal_order(&infos, &names), vec![4, 1, 2, 3, 0]);
}

#[test]
fn suggested_order_keeps_equal_fields_in_place() {
    let infos = [info(4, 4), info(4, 4), info(4, 4)];
    let names = vec![chars("k"), chars("k"), chars("a")];
    assert_eq!(optimal_order(&infos, &names), vec![2, 0, 1]);
}

#[test]
fn the_suggested_order_is_never_larger() {
    let infos = [info(1, 1), info(8, 8), info(2, 2), info(4, 4), info(1, 1)];
    let names = vec![chars("a"), chars("b"), chars("c"), chars("d"), chars("e")];
    let order = optimal_order(&infos, &names);
    let sorted: Vec<TypeInfo> = order.iter().map(|&i| infos[i]).collect();
    let (current, _) = struct_layout(&infos).unwrap();
    let (best, _) = struct_layout(&sorted).unwrap();
    assert_eq!((current, best), (32, 16));
}

#[test]
fn names_compare_by_characters() {
    assert!(name_lt(&chars("a"), &chars("b")));
    assert!(name_lt(&chars("ab"), &chars("abc")));
    assert!(!name_lt(&chars("abc"), &chars("abc")));
    assert!(name_lt(&chars("Z"), &chars("a")));
    assert!(!name_lt(&chars("b"), &chars("a")));
}

#[test]
fn noise_directories_are_skipped() {
    assert!(should_skip("node_modules/x/index.ts"));
    assert!(should_skip("packages/app/dist/out.ts"));
    assert!(should_skip("src/dist/a.ts"));
    assert!(should_skip(".next/a.ts"));
    assert!(should_skip("pkg/coverage/a.ts"));
    assert!(should_skip("build/a.ts"));
    assert!(should_skip(".nuxt/a.ts"));
    assert!(should_skip("x/.cache/a.ts"));
    assert!(!should_skip("src/dist.ts"));
    assert!(!should_skip("distro/a.ts"));
    assert!(!should_skip("src/app.ts"));
}

#[test]
fn only_the_documented_directories_are_skipped() {
    assert!(!should_skip("scripts/gen.ts"));
    assert!(!should_skip("src/docs/a.ts"));
    assert!(!should_skip("public/a.ts"));
    assert!(!should_skip("assets/a.ts"));
    assert!(!should_skip(".git/hooks/a.ts"));
    assert!(!should_skip("vendor/a.ts"));
}

#[test]
fn ignore_patterns_match_relative_paths() {
    let ignore = IgnorePatterns::new(&vec![".*\\.pb\\.go$".to_string(), "^gen/".to_string()]);
    assert!(ignore.is_ignored("api/user.pb.go"));
    assert!(ignore.is_ignored("gen/a.go"));
    assert!(!ignore.is_ignored("src/gen/a.go"));
    assert!(go_path_excluded("vendor/x/a.go", &ignore));
    assert!(go_path_excluded("a/testdata/b.go", &ignore));
    assert!(go_path_excluded("api/user.pb.go", &ignore));
    assert!(!go_path_excluded("api/user.go", &ignore));
    assert!(!go_path_excluded("node_modules/a.go", &ignore));
    assert!(ts_path_excluded("node_modules/a.ts", &ignore));
    assert!(!ts_path_excluded("src/a.ts", &ignore));
}

#[test]
fn no_or_broken_patterns_ignore_nothing() {
    let none = IgnorePatterns::new(&vec![]);
    assert!(!none.is_ignored("anything.go"));
    let broken = IgnorePatterns::new(&vec!["(".to_string()]);
    assert!(!broken.is_ignored("(.go"));
}

#[test]
fn a_refused_pattern_leaves_the_others_in_force() {
    let ignore = IgnorePatterns::new(&vec!["[".to_string(), "\\.pb\\.go$".to_string()]);
    assert!(ignore.is_ignored("api.pb.go"));
    assert!(go_path_excluded("api.pb.go", &ignore));
    assert!(!ignore.is_ignored("api.go"));
}

#[test]
fn any_power_of_two_alignment() {
    assert_eq!(struct_layout(&[info(1, 1), info(16, 16), info(1, 1)]), Some((48, 16)));
    assert_eq!(struct_layout(&[info(16, 16), info(1, 1), info(1, 1)]), Some((32, 16)));
    assert_eq!(struct_layout(&[info(1, 1), info(64, 64)]), Some((128, 64)));
}
