use cocogitto::oid::{Oid, OidOf};
use cocogitto::release::Release;
use cocogitto::repository::{Commit, Repository};
use cocogitto::revspec::{CommitRange, RevspecPattern};
use cocogitto::settings::MonoRepoPackage;
use cocogitto::tag::{Tag, Version};

const V1_OID: &str = "549070fa99986b059cbaa9457b6b6f065bbec46b";
const V2_OID: &str = "bbbbbbbbbbbbbbbbbbbbbbbbbbbbbbbbbbbbbbbb";
const V211_OID: &str = "9dcf728d2eef6b5986633dd52ecbe9e416234898";
const V3_OID: &str = "c6508e243e2816e2d2f58828ee0c6721502958dd";
const HEAD_OID: &str = "aaaaaaaaaaaaaaaaaaaaaaaaaaaaaaaaaaaaaaaa";
const ROOT_OID: &str = "dddddddddddddddddddddddddddddddddddddddd";

fn oid(s: &str) -> Oid {
    Oid::new(s.to_string())
}

fn commit(id: &str, parents: Vec<usize>) -> Commit {
    Commit {
        oid: oid(id),
        parents,
        changed_paths: Vec::new(),
    }
}

fn commit_with_paths(id: &str, parents: Vec<usize>, paths: Vec<&str>) -> Commit {
    Commit {
        oid: oid(id),
        parents,
        changed_paths: paths.into_iter().map(|p| p.to_string()).collect(),
    }
}

/// A linear history with tags 1.0.0, 2.0.0, 2.1.1 and 3.0.0 between the
/// first commit and an untagged head.
fn tagged_repo() -> Repository {
    let commits = vec![
        commit(HEAD_OID, vec![1]),
        commit(V3_OID, vec![2]),
        commit(V211_OID, vec![3]),
        commit(V2_OID, vec![4]),
        commit(V1_OID, vec![5]),
        commit(ROOT_OID, vec![]),
    ];
    let tags = vec![
        Tag::new(Version::new(1, 0, 0), oid(V1_OID)),
        Tag::new(Version::new(2, 0, 0), oid(V2_OID)),
        Tag::new(Version::new(2, 1, 1), oid(V211_OID)),
        Tag::new(Version::new(3, 0, 0), oid(V3_OID)),
    ];
    Repository::new(commits, tags).expect("well-formed history")
}

fn commit_oids(range: &CommitRange) -> Vec<String> {
    range.commits.iter().map(|c| c.oid.to_text()).collect()
}

fn tag_text(endpoint: &OidOf) -> Option<String> {
    endpoint.as_tag().map(|t| t.version.to_text())
}

#[test]
fn all_commits() {
    let repo = tagged_repo();

    let range = repo.all_commits().unwrap();

    assert!(!range.commits.is_empty());
    assert_eq!(range.commits.len(), 6);
    assert_eq!(range.to.oid().to_text(), HEAD_OID);
    assert_eq!(range.from.oid().to_text(), ROOT_OID);
}

#[test]
fn get_release_range_integration_test() {
    let commits = vec![
        commit("c000", vec![1]),
        commit("c001", vec![2]),
        commit("c002", vec![3]),
        commit("c003", vec![4]),
        commit("c004", vec![5]),
        commit("c005", vec![]),
    ];
    let tags = vec![
        Tag::new(Version::new(0, 32, 1), oid("c004")),
        Tag::new(Version::new(0, 32, 2), oid("c003")),
        Tag::new(Version::new(0, 32, 3), oid("c001")),
    ];
    let repo = Repository::new(commits, tags).unwrap();

    let release = repo
        .get_release_range(RevspecPattern::parse("0.32.1..0.32.3").unwrap())
        .unwrap();

    assert_eq!(release.version.to_text(), "0.32.3");

    let release = *release.previous.unwrap();
    assert_eq!(release.version.to_text(), "0.32.2");

    assert!(release.previous.is_none());
}

#[test]
fn from_tag_to_tag_ok() {
    let repo = tagged_repo();

    let range = repo
        .get_commit_range(&RevspecPattern::parse("1.0.0..3.0.0").unwrap())
        .unwrap();

    assert_eq!(tag_text(&range.from).as_deref(), Some("1.0.0"));
    assert_eq!(range.from.oid().to_text(), V1_OID);
    assert_eq!(tag_text(&range.to).as_deref(), Some("3.0.0"));
    assert_eq!(range.to.oid().to_text(), V3_OID);
    // the lower bound itself is excluded from the commits
    assert!(!commit_oids(&range).contains(&V1_OID.to_string()));
    assert_eq!(commit_oids(&range), vec![V3_OID, V211_OID, V2_OID]);
}

#[test]
fn from_tag_to_head() {
    let repo = tagged_repo();

    let range = repo
        .get_commit_range(&RevspecPattern::parse("1.0.0..").unwrap())
        .unwrap();

    assert_eq!(tag_text(&range.from).as_deref(), Some("1.0.0"));
    assert_eq!(range.from.oid().to_text(), V1_OID);
    // the head carries no tag, so the upper endpoint is a bare hash
    assert!(range.to.as_tag().is_none());
    assert_eq!(range.to.oid().to_text(), HEAD_OID);
}

#[test]
fn from_latest_to_head() {
    let repo = tagged_repo();

    let range = repo.get_commit_range(&RevspecPattern::default()).unwrap();

    // the latest tag is the implicit lower bound
    assert_eq!(tag_text(&range.from).as_deref(), Some("3.0.0"));
    assert_eq!(range.to.oid().to_text(), HEAD_OID);
    assert_eq!(commit_oids(&range), vec![HEAD_OID]);
}

#[test]
fn from_previous_to_tag() {
    let repo = tagged_repo();

    let range = repo
        .get_commit_range(&RevspecPattern::parse("..3.0.0").unwrap())
        .unwrap();

    assert_eq!(tag_text(&range.from).as_deref(), Some("2.1.1"));
    assert_eq!(range.from.oid().to_text(), V211_OID);
    assert_eq!(tag_text(&range.to).as_deref(), Some("3.0.0"));
    assert_eq!(range.to.oid().to_text(), V3_OID);
}

#[test]
fn recursive_from_origin_to_head() {
    let repo = tagged_repo();
    let tag_count = 4;

    let mut release = repo
        .get_release_range(RevspecPattern::parse("..").unwrap())
        .unwrap();
    let mut count = 0;

    while let Some(previous) = release.previous {
        release = *previous;
        count += 1;
    }

    assert_eq!(count, tag_count);
}

#[test]
fn bare_hash_upgrades_to_tag() {
    let repo = tagged_repo();

    let endpoint = repo.resolve_oid_of(V3_OID).unwrap();

    assert_eq!(tag_text(&endpoint).as_deref(), Some("3.0.0"));
    assert_eq!(endpoint.oid().to_text(), V3_OID);
}

#[test]
fn hash_prefix_resolves() {
    let repo = tagged_repo();
    let pattern_text = format!("{}..", &V1_OID[0..7]);

    let range = repo
        .get_commit_range(&RevspecPattern::parse(&pattern_text).unwrap())
        .unwrap();

    assert_eq!(tag_text(&range.from).as_deref(), Some("1.0.0"));
    assert_eq!(range.from.oid().to_text(), V1_OID);
}

#[test]
fn head_revision_text_resolves() {
    let repo = tagged_repo();

    let range = repo
        .get_commit_range(&RevspecPattern::parse("1.0.0..HEAD").unwrap())
        .unwrap();

    assert_eq!(range.to.oid().to_text(), HEAD_OID);
}

#[test]
fn equal_endpoints_give_empty_range() {
    let repo = tagged_repo();

    let range = repo
        .get_commit_range(&RevspecPattern::parse("1.0.0..1.0.0").unwrap())
        .unwrap();

    assert!(range.commits.is_empty());
}

#[test]
fn resolving_twice_is_identical() {
    let repo = tagged_repo();
    let pattern = RevspecPattern::parse("1.0.0..3.0.0").unwrap();

    let r1 = repo.get_commit_range(&pattern).unwrap();
    let r2 = repo.get_commit_range(&pattern).unwrap();

    assert_eq!(r1.from.oid().to_text(), r2.from.oid().to_text());
    assert_eq!(tag_text(&r1.from), tag_text(&r2.from));
    assert_eq!(r1.to.oid().to_text(), r2.to.oid().to_text());
    assert_eq!(tag_text(&r1.to), tag_text(&r2.to));
    assert_eq!(commit_oids(&r1), commit_oids(&r2));
}

#[test]
fn latest_tag_skips_the_commit_itself() {
    // the commit V3_OID carries tag 3.0.0, yet the latest tag below it is
    // the one on its ancestry, never its own
    let repo = tagged_repo();

    let tag = repo.get_latest_tag_starting_from(&oid(V3_OID)).unwrap();

    assert_eq!(tag.version.to_text(), "2.1.1");
    assert_ne!(tag.oid.to_text(), V3_OID);
}

/// A head that itself carries a tag becomes a tag-qualified upper bound.
fn head_tagged_repo() -> Repository {
    let commits = vec![
        commit("h000", vec![1]),
        commit("h001", vec![2]),
        commit("h002", vec![3]),
        commit("h003", vec![]),
    ];
    let tags = vec![
        Tag::new(Version::new(1, 0, 0), oid("h002")),
        Tag::new(Version::new(2, 0, 0), oid("h000")),
    ];
    Repository::new(commits, tags).expect("well-formed history")
}

#[test]
fn implicit_upper_bound_with_tagged_head() {
    let repo = head_tagged_repo();

    let range = repo
        .get_commit_range(&RevspecPattern::parse("1.0.0..").unwrap())
        .unwrap();

    assert_eq!(tag_text(&range.to).as_deref(), Some("2.0.0"));
    assert_eq!(range.to.oid().to_text(), "h000");
}

#[test]
fn release_chain_truncates_at_inner_commit() {
    // h001 falls strictly inside the range bounded by tags 1.0.0 and 2.0.0
    let repo = head_tagged_repo();

    let release = repo
        .get_release_range(RevspecPattern::parse("h001..").unwrap())
        .unwrap();

    let oids: Vec<String> = release.commits.iter().map(|c| c.oid.to_text()).collect();
    assert_eq!(oids, vec!["h000".to_string(), "h001".to_string()]);
    assert!(release.previous.is_none());
}

#[test]
fn release_chain_from_first_commit_terminates() {
    let repo = head_tagged_repo();

    let mut release = repo
        .get_release_range(RevspecPattern::parse("h003..").unwrap())
        .unwrap();

    let mut steps = 0;
    while let Some(previous) = release.previous {
        release = *previous;
        steps += 1;
        assert!(steps < 100);
    }
    assert!(release.previous.is_none());
}

fn release_all_oids(release: &Release) -> Vec<String> {
    release.commits.iter().map(|c| c.oid.to_text()).collect()
}

#[test]
fn release_chain_segments_commits() {
    let repo = tagged_repo();

    let release = repo
        .get_release_range(RevspecPattern::parse("..").unwrap())
        .unwrap();

    assert_eq!(release.version.to_text(), HEAD_OID);
    assert_eq!(release_all_oids(&release), vec![HEAD_OID.to_string()]);
    let second = release.previous.unwrap();
    assert_eq!(second.version.to_text(), "3.0.0");
    assert_eq!(release_all_oids(&second), vec![V3_OID.to_string()]);
}

fn monorepo() -> Repository {
    let commits = vec![
        commit_with_paths("m000", vec![1], vec!["pkgA/file"]),
        commit_with_paths("m001", vec![2], vec!["pkgAx/file"]),
        commit_with_paths("m002", vec![3], vec!["shared/file"]),
        commit_with_paths("m003", vec![], vec!["init"]),
    ];
    Repository::new(commits, vec![]).expect("well-formed history")
}

#[test]
fn monorepo_package_filter() {
    let repo = monorepo();
    let package = MonoRepoPackage::new("pkgA".to_string(), "pkgA".to_string());
    let pattern = RevspecPattern::default();

    let range = repo
        .get_commit_range_for_package(&pattern, &package)
        .unwrap();

    assert_eq!(commit_oids(&range), vec!["m000"]);
}

#[test]
fn monorepo_global_filter() {
    let repo = monorepo();
    let packages = vec![MonoRepoPackage::new("pkgA".to_string(), "pkgA".to_string())];
    let pattern = RevspecPattern::default();

    let range = repo
        .get_commit_range_for_monorepo_global(&pattern, &packages)
        .unwrap();

    // pkgAx is not under the pkgA tree, shared is under no package tree
    assert_eq!(commit_oids(&range), vec!["m001", "m002"]);
}
