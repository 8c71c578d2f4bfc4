use cocogitto::error::Error;
use cocogitto::hook::HookKind;
use cocogitto::oid::Oid;
use cocogitto::repository::{Commit, Repository};
use cocogitto::revspec::RevspecPattern;
use cocogitto::settings::MonoRepoPackage;
use cocogitto::tag::{Tag, Version};
use cocogitto::text::{path_starts_with, str_eq_str, str_is_prefix, u64_to_dec_string};
use cocogitto::version::{Increment, IncrementCommand};
use cocogitto::CocoGitto;
use std::cmp::Ordering;

fn oid(s: &str) -> Oid {
    Oid::new(s.to_string())
}

fn commit(id: &str, parents: Vec<usize>) -> Commit {
    Commit {
        oid: oid(id),
        parents,
        changed_paths: Vec::new(),
    }
}

fn linear_repo() -> Repository {
    let commits = vec![
        commit("c000", vec![1]),
        commit("c001", vec![2]),
        commit("c002", vec![]),
    ];
    let tags = vec![Tag::new(Version::new(1, 0, 0), oid("c001"))];
    Repository::new(commits, tags).expect("well-formed history")
}

#[test]
fn convert_str_to_pattern_to() {
    let pattern = RevspecPattern::parse("..1.0.0").unwrap();

    assert!(pattern.from.is_none());
    assert_eq!(pattern.to, Some("1.0.0".to_string()));
}

#[test]
fn convert_str_to_pattern_from() {
    let pattern = RevspecPattern::parse("1.0.0..").unwrap();

    assert_eq!(pattern.from, Some("1.0.0".to_string()));
    assert!(pattern.to.is_none());
}

#[test]
fn convert_empty_pattern() {
    let pattern = RevspecPattern::parse("..").unwrap();

    assert!(pattern.from.is_none());
    assert!(pattern.to.is_none());
}

#[test]
fn convert_full_pattern() {
    let pattern = RevspecPattern::parse("1.0.0..2.0.0").unwrap();

    assert_eq!(pattern.from, Some("1.0.0".to_string()));
    assert_eq!(pattern.to, Some("2.0.0".to_string()));
}

#[test]
fn invalid_pattern_rejected() {
    assert_eq!(
        RevspecPattern::parse("1.0.0").unwrap_err(),
        Error::InvalidRangeSyntax
    );
}

#[test]
fn pattern_splits_at_first_separator() {
    let pattern = RevspecPattern::parse("a..b..c").unwrap();

    assert_eq!(pattern.from, Some("a".to_string()));
    assert_eq!(pattern.to, Some("b..c".to_string()));
}

#[test]
fn default_pattern_is_empty() {
    let pattern = RevspecPattern::default();
    assert!(pattern.from.is_none());
    assert!(pattern.to.is_none());
}

#[test]
fn version_renders_exactly() {
    assert_eq!(Version::new(1, 2, 3).to_text(), "1.2.3");
    assert_eq!(Version::new(0, 32, 3).to_text(), "0.32.3");
    assert_eq!(Version::new(10, 0, 250).to_text(), "10.0.250");
}

#[test]
fn decimal_rendering_exact() {
    assert_eq!(u64_to_dec_string(0), "0");
    assert_eq!(u64_to_dec_string(7), "7");
    assert_eq!(u64_to_dec_string(1234567890), "1234567890");
    assert_eq!(u64_to_dec_string(u64::MAX), "18446744073709551615");
}

#[test]
fn version_ordering_is_lexicographic() {
    assert!(Version::new(1, 0, 0).lt(&Version::new(2, 0, 0)));
    assert!(Version::new(1, 0, 9).lt(&Version::new(1, 1, 0)));
    assert!(Version::new(1, 1, 0).lt(&Version::new(1, 1, 1)));
    assert!(!Version::new(3, 0, 0).lt(&Version::new(2, 9, 9)));
    assert!(!Version::new(1, 0, 0).lt(&Version::new(1, 0, 0)));
}

#[test]
fn increment_ordering() {
    assert_eq!(
        Increment::Major.partial_cmp(&Increment::Minor),
        Some(Ordering::Greater)
    );
    assert_eq!(
        Increment::Minor.partial_cmp(&Increment::Patch),
        Some(Ordering::Greater)
    );
    assert_eq!(
        Increment::Patch.partial_cmp(&Increment::Major),
        Some(Ordering::Less)
    );
    assert_eq!(
        Increment::Minor.partial_cmp(&Increment::Minor),
        Some(Ordering::Equal)
    );
}

#[test]
fn increment_converts_to_command() {
    assert_eq!(
        IncrementCommand::from(Increment::Major),
        IncrementCommand::Major
    );
    assert_eq!(
        IncrementCommand::from(Increment::Minor),
        IncrementCommand::Minor
    );
    assert_eq!(
        IncrementCommand::from(Increment::Patch),
        IncrementCommand::Patch
    );
}

#[test]
fn text_helpers() {
    assert!(str_eq_str("abc", "abc"));
    assert!(!str_eq_str("abc", "abd"));
    assert!(str_is_prefix("ab", "abc"));
    assert!(!str_is_prefix("abc", "ab"));
    assert!(path_starts_with("one/file", "one"));
    assert!(path_starts_with("one", "one"));
    assert!(!path_starts_with("ones/file", "one"));
}

#[test]
fn add_pre_commit_hook() {
    let cog = CocoGitto::new(linear_repo(), Some(".".to_string()));

    let plan = cog.install_hook(HookKind::PrepareCommit).unwrap();

    assert_eq!(plan.len(), 1);
    assert_eq!(plan[0].path, ".git/hooks/pre-commit");
    assert_eq!(plan[0].kind, HookKind::PrepareCommit);
}

#[test]
fn add_pre_push_hook() {
    let cog = CocoGitto::new(linear_repo(), Some(".".to_string()));

    let plan = cog.install_hook(HookKind::PrePush).unwrap();

    assert_eq!(plan.len(), 1);
    assert_eq!(plan[0].path, ".git/hooks/pre-push");
    assert_eq!(plan[0].kind, HookKind::PrePush);
}

#[test]
fn add_all() {
    let cog = CocoGitto::new(linear_repo(), Some(".".to_string()));

    let plan = cog.install_hook(HookKind::All).unwrap();

    assert_eq!(plan.len(), 2);
    assert_eq!(plan[0].path, ".git/hooks/pre-commit");
    assert_eq!(plan[1].path, ".git/hooks/pre-push");
}

#[test]
fn install_hook_needs_repo_dir() {
    let cog = CocoGitto::new(linear_repo(), None);
    assert_eq!(
        cog.install_hook(HookKind::All).unwrap_err(),
        Error::RepositoryDirNotFound
    );
}

#[test]
fn constructor_rejects_backward_parent() {
    let commits = vec![commit("c000", vec![0]), commit("c001", vec![])];
    assert!(Repository::new(commits, vec![]).is_none());
}

#[test]
fn constructor_rejects_duplicate_hashes() {
    let commits = vec![commit("c000", vec![1]), commit("c000", vec![])];
    assert!(Repository::new(commits, vec![]).is_none());
}

#[test]
fn constructor_rejects_unknown_tag_target() {
    let commits = vec![commit("c000", vec![])];
    let tags = vec![Tag::new(Version::new(1, 0, 0), oid("dead"))];
    assert!(Repository::new(commits, tags).is_none());
}

#[test]
fn constructor_rejects_duplicate_versions() {
    let commits = vec![commit("c000", vec![1]), commit("c001", vec![])];
    let tags = vec![
        Tag::new(Version::new(1, 0, 0), oid("c000")),
        Tag::new(Version::new(1, 0, 0), oid("c001")),
    ];
    assert!(Repository::new(commits, tags).is_none());
}

#[test]
fn empty_history_reported() {
    let repo = Repository::new(Vec::new(), Vec::new()).unwrap();
    assert_eq!(repo.all_commits().unwrap_err(), Error::EmptyHistory);
    assert_eq!(
        repo.get_commit_range(&RevspecPattern::default()).unwrap_err(),
        Error::EmptyHistory
    );
}

#[test]
fn unknown_revision_reported() {
    let repo = linear_repo();
    let pattern = RevspecPattern::parse("f0f0..").unwrap();
    assert_eq!(
        repo.get_commit_range(&pattern).unwrap_err(),
        Error::RevisionNotFound
    );
}

#[test]
fn no_tag_found_reported() {
    let commits = vec![commit("c000", vec![1]), commit("c001", vec![])];
    let repo = Repository::new(commits, vec![]).unwrap();
    assert_eq!(
        repo.get_latest_tag_starting_from(&oid("c000")).unwrap_err(),
        Error::NoTagFound
    );
    // a parentless commit has no ancestry to search
    let repo2 = linear_repo();
    assert_eq!(
        repo2.get_latest_tag_starting_from(&oid("c002")).unwrap_err(),
        Error::NoTagFound
    );
}

#[test]
fn monorepo_package_holds_configuration() {
    let package = MonoRepoPackage::new("one".to_string(), "one".to_string());
    assert_eq!(package.name, "one");
    assert_eq!(package.path, "one");
}
