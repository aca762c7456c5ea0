use emplace::package::Manager;
use emplace::package::Op;
use emplace::package::Package;
use emplace::package::Packages;
use emplace::repo::Error;
use emplace::repo::OpenStep;
use emplace::repo::Repo;
use emplace::repo::VcsOutcome;
use emplace::repo::VcsStep;
use emplace::repo::vcs_result;
use emplace::de::deserialize;

fn pkg(manager: Manager, op: Op, ids: &[&str]) -> Package {
    Package { manager, op, id: ids.iter().map(|s| s.to_string()).collect() }
}

fn repo() -> Repo {
    Repo::new(
        "/tmp/mirrors".to_string(),
        "git@example.com:me/mirrors.git".to_string(),
        "master".to_string(),
        ".emplace".to_string(),
    )
}

fn same_sets(a: &Packages, b: &Packages) -> bool {
    a.0.len() == b.0.len() && a.0.iter().zip(b.0.iter()).all(|(x, y)| x.same_as(y))
}

#[test]
fn full_name_renders_manager_op_and_tokens() {
    let p = pkg(Manager::Apt, Op::Install, &["curl", "docs"]);
    assert_eq!(p.full_name(), "apt install curl docs");
    let q = pkg(Manager::Brew, Op::Remove, &["jq"]);
    assert_eq!(q.full_name(), "brew remove jq");
}

#[test]
fn commit_message_names_the_candidates() {
    let c = Packages(vec![
        pkg(Manager::Apt, Op::Install, &["curl"]),
        pkg(Manager::Brew, Op::Install, &["jq"]),
    ]);
    assert_eq!(c.commit_message(), "Emplace - mirror apt install curl, brew install jq");
}

#[test]
fn filter_keeps_only_new_records_in_order() {
    let saved = Packages(vec![pkg(Manager::Apt, Op::Install, &["curl"])]);
    let mut cand = Packages(vec![
        pkg(Manager::Apt, Op::Install, &["curl"]),
        pkg(Manager::Apt, Op::Install, &["wget"]),
    ]);
    cand.filter_saved_packages(&saved);
    assert!(same_sets(&cand, &Packages(vec![pkg(Manager::Apt, Op::Install, &["wget"])])));
}

#[test]
fn filter_distinguishes_manager_op_and_identifier() {
    let saved = Packages(vec![pkg(Manager::Apt, Op::Install, &["curl"])]);
    let mut cand = Packages(vec![
        pkg(Manager::Brew, Op::Install, &["curl"]),
        pkg(Manager::Apt, Op::Remove, &["curl"]),
        pkg(Manager::Apt, Op::Install, &["curl", "extra"]),
    ]);
    let expect = Packages(vec![
        pkg(Manager::Brew, Op::Install, &["curl"]),
        pkg(Manager::Apt, Op::Remove, &["curl"]),
        pkg(Manager::Apt, Op::Install, &["curl", "extra"]),
    ]);
    cand.filter_saved_packages(&saved);
    assert!(same_sets(&cand, &expect));
}

#[test]
fn merge_unions_without_duplicates_keeping_order() {
    let existing = Packages(vec![
        pkg(Manager::Apt, Op::Install, &["curl"]),
        pkg(Manager::Brew, Op::Install, &["jq"]),
    ]);
    let mut cand = Packages(vec![
        pkg(Manager::Brew, Op::Install, &["jq"]),
        pkg(Manager::Npm, Op::Install, &["left-pad"]),
        pkg(Manager::Npm, Op::Install, &["left-pad"]),
        pkg(Manager::Pip, Op::Remove, &["six"]),
    ]);
    cand.merge(&existing);
    let expect = Packages(vec![
        pkg(Manager::Apt, Op::Install, &["curl"]),
        pkg(Manager::Brew, Op::Install, &["jq"]),
        pkg(Manager::Npm, Op::Install, &["left-pad"]),
        pkg(Manager::Pip, Op::Remove, &["six"]),
    ]);
    assert!(same_sets(&cand, &expect));
}

#[test]
fn merge_twice_with_same_existing_set_changes_nothing() {
    let existing = Packages(vec![pkg(Manager::Apt, Op::Install, &["curl"])]);
    let mut once = Packages(vec![
        pkg(Manager::Apt, Op::Install, &["wget"]),
        pkg(Manager::Apt, Op::Install, &["curl"]),
    ]);
    once.merge(&existing);
    let first = once.serialize();
    once.merge(&existing);
    assert_eq!(once.serialize(), first);
}

#[test]
fn merge_is_complement_of_filter_as_sets() {
    let b = Packages(vec![
        pkg(Manager::Apt, Op::Install, &["curl"]),
        pkg(Manager::Brew, Op::Install, &["jq"]),
    ]);
    let a = Packages(vec![
        pkg(Manager::Brew, Op::Install, &["jq"]),
        pkg(Manager::Cargo, Op::Install, &["ripgrep"]),
    ]);
    let mut merged = Packages(a.0.iter().map(|p| p.duplicate()).collect());
    merged.merge(&b);
    let mut filtered = Packages(a.0.iter().map(|p| p.duplicate()).collect());
    filtered.filter_saved_packages(&b);
    let mut union = Packages(b.0.iter().map(|p| p.duplicate()).collect());
    union.0.extend(filtered.0.into_iter());
    assert!(same_sets(&merged, &union));
}

#[test]
fn serialize_one_record_exact_text() {
    let set = Packages(vec![pkg(Manager::Apt, Op::Install, &["curl"])]);
    assert_eq!(set.serialize(), "(manager:apt,op:install,id:[\"curl\"])\n");
}

#[test]
fn serialize_empty_set_is_empty_text() {
    assert_eq!(Packages(vec![]).serialize(), "");
}

#[test]
fn serialize_multiple_tokens_and_records() {
    let set = Packages(vec![
        pkg(Manager::Brew, Op::Remove, &["a", "b"]),
        pkg(Manager::Pip, Op::Install, &[]),
    ]);
    assert_eq!(
        set.serialize(),
        "(manager:brew,op:remove,id:[\"a\",\"b\"])\n(manager:pip,op:install,id:[])\n"
    );
}

#[test]
fn round_trip_returns_the_same_records() {
    let set = Packages(vec![
        pkg(Manager::Apt, Op::Install, &["curl", "wget"]),
        pkg(Manager::Cargo, Op::Install, &["ripgrep"]),
        pkg(Manager::Npm, Op::Remove, &[]),
        pkg(Manager::Pip, Op::Install, &[""]),
    ]);
    let text = set.serialize();
    let back = deserialize(&text).expect("canonical text must parse");
    assert!(same_sets(&set, &back));
    assert_eq!(back.serialize(), text);
}

#[test]
fn accepted_text_reserializes_byte_for_byte() {
    let text = "(manager:npm,op:remove,id:[\"left-pad\"])\n(manager:pip,op:install,id:[\"six\",\"wheel\"])\n";
    let set = deserialize(text).expect("canonical text must parse");
    assert_eq!(set.serialize(), text);
}

#[test]
fn deserialize_rejects_malformed_text() {
    assert!(deserialize("not a record file").is_none());
    assert!(deserialize("(manager:apt,op:install,id:[\"curl\"])").is_none());
    assert!(deserialize("(manager:apt,op:install,id:[\"curl\",])\n").is_none());
    assert!(deserialize("(manager:deb,op:install,id:[\"curl\"])\n").is_none());
    assert!(deserialize("(manager:apt,op:install,id:[\"curl\"])\nx").is_none());
}

#[test]
fn read_missing_file_is_not_found() {
    assert_eq!(repo().read(None).unwrap_err(), Error::NotFound);
}

#[test]
fn read_malformed_file_is_corrupt_data_not_empty() {
    let garbled = "totally not records".to_string();
    assert_eq!(repo().read(Some(&garbled)).unwrap_err(), Error::CorruptData);
}

#[test]
fn read_returns_the_persisted_records() {
    let text = Packages(vec![pkg(Manager::Brew, Op::Install, &["jq"])]).serialize();
    let got = repo().read(Some(&text)).expect("canonical file must load");
    assert!(same_sets(&got, &Packages(vec![pkg(Manager::Brew, Op::Install, &["jq"])])));
}

#[test]
fn mirror_first_sync_writes_exactly_the_candidates() {
    let cand = Packages(vec![pkg(Manager::Brew, Op::Install, &["jq"])]);
    let plan = repo().mirror(cand, None).expect("first sync must plan");
    assert_eq!(plan.contents, "(manager:brew,op:install,id:[\"jq\"])\n");
    assert!(plan.changed);
    assert_eq!(plan.message, "Emplace - mirror brew install jq");
}

#[test]
fn mirror_merges_then_repeating_it_changes_nothing() {
    let persisted = Packages(vec![pkg(Manager::Apt, Op::Install, &["curl"])]).serialize();

    // pre-confirmation filter shows only the genuinely new record
    let saved = repo().read(Some(&persisted)).unwrap();
    let mut shown = Packages(vec![
        pkg(Manager::Apt, Op::Install, &["curl"]),
        pkg(Manager::Apt, Op::Install, &["wget"]),
    ]);
    shown.filter_saved_packages(&saved);
    assert!(same_sets(&shown, &Packages(vec![pkg(Manager::Apt, Op::Install, &["wget"])])));

    let cand = Packages(vec![
        pkg(Manager::Apt, Op::Install, &["curl"]),
        pkg(Manager::Apt, Op::Install, &["wget"]),
    ]);
    let plan = repo().mirror(cand, Some(&persisted)).unwrap();
    let expect = Packages(vec![
        pkg(Manager::Apt, Op::Install, &["curl"]),
        pkg(Manager::Apt, Op::Install, &["wget"]),
    ])
    .serialize();
    assert_eq!(plan.contents, expect);
    assert!(plan.changed);

    // the exact same mirror against the new contents produces no commit
    let cand_again = Packages(vec![
        pkg(Manager::Apt, Op::Install, &["curl"]),
        pkg(Manager::Apt, Op::Install, &["wget"]),
    ]);
    let again = repo().mirror(cand_again, Some(&plan.contents)).unwrap();
    assert_eq!(again.contents, plan.contents);
    assert!(!again.changed);
}

#[test]
fn mirror_with_no_new_candidates_plans_no_commit() {
    let persisted = Packages(vec![pkg(Manager::Apt, Op::Install, &["curl"])]).serialize();
    let plan = repo().mirror(Packages(vec![]), Some(&persisted)).unwrap();
    assert_eq!(plan.contents, persisted);
    assert!(!plan.changed);
}

#[test]
fn merge_never_drops_an_existing_record_even_a_duplicate() {
    let existing = Packages(vec![
        pkg(Manager::Apt, Op::Install, &["curl"]),
        pkg(Manager::Apt, Op::Install, &["curl"]),
    ]);
    let mut cand = Packages(vec![pkg(Manager::Apt, Op::Install, &["wget"])]);
    cand.merge(&existing);
    let expect = Packages(vec![
        pkg(Manager::Apt, Op::Install, &["curl"]),
        pkg(Manager::Apt, Op::Install, &["curl"]),
        pkg(Manager::Apt, Op::Install, &["wget"]),
    ]);
    assert!(same_sets(&cand, &expect));
}

#[test]
fn mirror_on_corrupt_file_fails_instead_of_overwriting() {
    let garbled = "(manager:apt,op:install".to_string();
    let cand = Packages(vec![pkg(Manager::Apt, Op::Install, &["curl"])]);
    assert_eq!(repo().mirror(cand, Some(&garbled)).unwrap_err(), Error::CorruptData);
}

#[test]
fn clean_rewrites_verbatim_with_fixed_message() {
    let keep = Packages(vec![pkg(Manager::Cargo, Op::Install, &["ripgrep"])]);
    let plan = repo().clean(keep);
    assert_eq!(plan.contents, "(manager:cargo,op:install,id:[\"ripgrep\"])\n");
    assert_eq!(plan.message, "Emplace - clean packages");
    assert!(plan.changed);
}

#[test]
fn open_step_clones_only_when_no_working_copy_exists() {
    assert_eq!(Repo::open_step(true), OpenStep::Pull);
    assert_eq!(Repo::open_step(false), OpenStep::CloneRepo);
}

#[test]
fn rejected_push_is_reported_as_remote_advanced() {
    assert_eq!(vcs_result(VcsStep::Push, VcsOutcome::Success), Ok(()));
    assert_eq!(
        vcs_result(VcsStep::Push, VcsOutcome::NonFastForward),
        Err(Error::RemoteAdvanced)
    );
    assert_eq!(
        vcs_result(VcsStep::Pull, VcsOutcome::NonFastForward),
        Err(Error::VersionControlFailure(VcsStep::Pull))
    );
    assert_eq!(
        vcs_result(VcsStep::Commit, VcsOutcome::Failure),
        Err(Error::VersionControlFailure(VcsStep::Commit))
    );
}

#[test]
fn retry_after_remote_advanced_unions_both_contributions() {
    // this machine starts from the shared file and wants to add one record
    let shared = Packages(vec![pkg(Manager::Apt, Op::Install, &["curl"])]).serialize();
    let cand = Packages(vec![pkg(Manager::Npm, Op::Install, &["left-pad"])]);
    let plan = repo().mirror(cand, Some(&shared)).unwrap();
    assert!(plan.changed);

    // the push is rejected: another machine advanced the remote meanwhile
    assert_eq!(
        vcs_result(VcsStep::Push, VcsOutcome::NonFastForward),
        Err(Error::RemoteAdvanced)
    );

    // after the other machine's sync the remote holds its record too
    let remote = Packages(vec![
        pkg(Manager::Apt, Op::Install, &["curl"]),
        pkg(Manager::Brew, Op::Install, &["jq"]),
    ])
    .serialize();

    // re-running the whole operation (pull, merge, commit) now succeeds and
    // the result is the union of both machines' contributions
    let cand_retry = Packages(vec![pkg(Manager::Npm, Op::Install, &["left-pad"])]);
    let retry = repo().mirror(cand_retry, Some(&remote)).unwrap();
    let expect = Packages(vec![
        pkg(Manager::Apt, Op::Install, &["curl"]),
        pkg(Manager::Brew, Op::Install, &["jq"]),
        pkg(Manager::Npm, Op::Install, &["left-pad"]),
    ])
    .serialize();
    assert_eq!(retry.contents, expect);
    assert_eq!(vcs_result(VcsStep::Push, VcsOutcome::Success), Ok(()));
}

#[test]
fn well_formedness_gates_tokens_with_quotes() {
    let good = Packages(vec![pkg(Manager::Apt, Op::Install, &["curl"])]);
    assert!(good.is_well_formed());
    let bad = Packages(vec![pkg(Manager::Apt, Op::Install, &["cu\"rl"])]);
    assert!(!bad.is_well_formed());
}
