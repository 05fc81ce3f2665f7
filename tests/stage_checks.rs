use chrono::{Datelike, NaiveDate};
use rollout_controller::bake::get_remaining_bake_time_for_subnet;
use rollout_controller::proposals::get_open_proposal_for_subnet;
use rollout_controller::{
    check_stages, desired_rollout_release_version, BakeSample, Date, Index, ProposalInfo, Release, Rollout, Stage,
    Subnet, SubnetAction, SubnetUpdateProposal, UnassignedNodesProposal, Version,
};

const IO67A: &str = "io67a-2jmkw-zup3h-snbwi-g6a5n-rm5dn-b6png-lvdpl-nqnto-yih6l-gqe";
const SHEFU: &str = "shefu-t3kr5-t5q3w-mqmdq-jabyv-vyvtf-cyyey-3kmo4-toyln-emubw-4qe";
const UZR34: &str = "uzr34-akd3s-xrdag-3ql62-ocgoh-ld2ao-tamcv-54e7j-krwgb-2gm4z-oqe";
const PJLJW: &str = "pjljw-kztyl-46ud4-ofrj6-nzkhm-3n4nt-wi3jt-ypmav-ijqkt-gjf66-uae";
const NEW_VERSION: &str = "2e921c9adfc71f3edc96a9eb5d85fc742e7d8a9f";
const OLD_VERSION: &str = "85bd56a70e55b2cea75cae6405ae11243e5fdad8";
const FEATURE_VERSION: &str = "76521ef765e86187c43f7d6a02e63332a6556c8c";

fn date(s: &str) -> Date {
    let day = NaiveDate::parse_from_str(s, "%Y-%m-%d").expect("Should parse date");
    Date::from_days_from_ce(day.num_days_from_ce()).expect("date in range")
}

fn duration_secs(s: &str) -> i64 {
    humantime::parse_duration(s).expect("Should parse duration").as_secs() as i64
}

fn craft_subnet_from_id(subnet_id: &str) -> Subnet {
    Subnet { principal: subnet_id.to_string(), replica_version: String::new() }
}

fn craft_proposals(subnet_with_execution_status: &[(&str, bool)], version: &str) -> Vec<SubnetUpdateProposal> {
    subnet_with_execution_status
        .iter()
        .enumerate()
        .map(|(i, (id, executed))| SubnetUpdateProposal {
            info: ProposalInfo { id: i as u64, executed: *executed },
            subnet_id: id.to_string(),
            replica_version_id: version.to_string(),
        })
        .collect()
}

fn craft_open_proposals(subnet_ids: &[&str], version: &str) -> Vec<SubnetUpdateProposal> {
    craft_proposals(&subnet_ids.iter().map(|id| (*id, false)).collect::<Vec<_>>(), version)
}

fn craft_executed_proposals(subnet_ids: &[&str], version: &str) -> Vec<SubnetUpdateProposal> {
    craft_proposals(&subnet_ids.iter().map(|id| (*id, true)).collect::<Vec<_>>(), version)
}

fn craft_bake_status(tuples: &[(&str, &str)]) -> Vec<BakeSample> {
    tuples
        .iter()
        .map(|(id, duration)| BakeSample { subnet: id.to_string(), observed_secs: duration_secs(duration) })
        .collect()
}

fn subnet_stage(subnets: &[&str], bake_time: &str, wait_for_next_week: bool) -> Stage {
    Stage::Subnets {
        subnets: subnets.iter().map(|s| s.to_string()).collect(),
        bake_time_secs: duration_secs(bake_time),
        wait_for_next_week,
    }
}

fn plain_version(name: &str, version: &str) -> Version {
    Version { name: name.to_string(), version: version.to_string(), subnets: vec![] }
}

fn craft_rollout() -> Rollout {
    Rollout {
        pause: false,
        skip_days: vec![],
        stages: vec![
            subnet_stage(&["io67a"], "8h", false),
            subnet_stage(&["shefu", "uzr34"], "4h", false),
            Stage::UnassignedNodes,
            subnet_stage(&["pjljw"], "4h", true),
        ],
    }
}

fn old_release() -> Release {
    Release {
        rc_name: "rc--2024-02-14_23-01".to_string(),
        start_date: date("2024-02-14"),
        versions: vec![plain_version("rc--2024-02-14_23-01", OLD_VERSION)],
    }
}

fn craft_index_state() -> Index {
    Index {
        rollout: craft_rollout(),
        releases: vec![
            Release {
                rc_name: "rc--2024-02-21_23-01".to_string(),
                start_date: date("2024-02-21"),
                versions: vec![plain_version("rc--2024-02-21_23-01", NEW_VERSION)],
            },
            old_release(),
        ],
    }
}

fn craft_feature_index_state() -> Index {
    Index {
        rollout: craft_rollout(),
        releases: vec![
            Release {
                rc_name: "rc--2024-02-21_23-01".to_string(),
                start_date: date("2024-02-21"),
                versions: vec![
                    plain_version("rc--2024-02-21_23-01", NEW_VERSION),
                    Version {
                        name: "rc--2024-02-21_23-01-feat".to_string(),
                        version: FEATURE_VERSION.to_string(),
                        subnets: ["io67a", "shefu"].iter().map(|f| f.to_string()).collect(),
                    },
                ],
            },
            old_release(),
        ],
    }
}

fn craft_subnets() -> Vec<Subnet> {
    [IO67A, SHEFU, UZR34, PJLJW]
        .iter()
        .map(|id| Subnet { principal: id.to_string(), replica_version: OLD_VERSION.to_string() })
        .collect()
}

fn replace_versions(subnets: &mut Vec<Subnet>, tuples: &[(&str, &str)]) {
    for (id, ver) in tuples {
        if let Some(subnet) = subnets.iter_mut().find(|s| s.principal.contains(id)) {
            subnet.replica_version = ver.to_string();
        }
    }
}

fn executed_unassigned_proposal(id: u64, executed: bool, version: &str) -> UnassignedNodesProposal {
    UnassignedNodesProposal { info: ProposalInfo { id, executed }, replica_version: Some(version.to_string()) }
}

#[test]
fn should_find_open_proposal_for_subnet() {
    let proposals = craft_open_proposals(
        &["snjp4-xlbw4-mnbog-ddwy6-6ckfd-2w5a2-eipqo-7l436-pxqkh-l6fuv-vae", "pae4o-o6dxf-xki7q-ezclx-znyd6-fnk6w-vkv5z-5lfwh-xym2i-otrrw-fqe"],
        "version",
    );
    let subnet = craft_subnet_from_id("snjp4-xlbw4-mnbog-ddwy6-6ckfd-2w5a2-eipqo-7l436-pxqkh-l6fuv-vae");
    let proposal = get_open_proposal_for_subnet(&proposals, &subnet, "version");

    assert!(proposal.is_some())
}

#[test]
fn should_return_error_subnet_not_found() {
    let subnet = craft_subnet_from_id("pae4o-o6dxf-xki7q-ezclx-znyd6-fnk6w-vkv5z-5lfwh-xym2i-otrrw-fqe");
    let bake_status = vec![BakeSample { subnet: "random-subnet".to_string(), observed_secs: 1 }];

    let maybe_remaining_bake_time = get_remaining_bake_time_for_subnet(&bake_status, &subnet, 100);

    assert!(maybe_remaining_bake_time.is_err())
}

fn test_subnet_id(id: u64) -> String {
    format!("{id:05}-subnet-test-id")
}

#[test]
fn desired_version_test_cases() {
    struct TestCase {
        name: &'static str,
        subnets: Vec<Subnet>,
        releases: Vec<Release>,
        want: Vec<(u64, String)>,
    }

    fn subnet(id: u64, version: &str) -> Subnet {
        Subnet { principal: test_subnet_id(id), replica_version: version.to_string() }
    }

    fn release(name: &str, versions: Vec<(&str, Vec<u64>)>) -> Release {
        Release {
            rc_name: name.to_string(),
            start_date: Date::from_days_from_ce(1).expect("date in range"),
            versions: versions
                .iter()
                .map(|(v, subnets)| Version {
                    name: String::new(),
                    version: v.to_string(),
                    subnets: subnets.iter().map(|id| test_subnet_id(*id)).collect(),
                })
                .collect(),
        }
    }

    fn want(pairs: Vec<(u64, &str)>) -> Vec<(u64, String)> {
        pairs.into_iter().map(|(k, v)| (k, v.to_string())).collect()
    }

    for tc in vec![
        TestCase {
            name: "all versions on the newest version already",
            subnets: vec![subnet(1, "A.default")],
            releases: vec![release("A", vec![("A.default", vec![])])],
            want: want(vec![(1, "A.default")]),
        },
        TestCase {
            name: "upgrade one subnet",
            subnets: vec![subnet(1, "B.default"), subnet(2, "A.default")],
            releases: vec![release("B", vec![("B.default", vec![])]), release("A", vec![("A.default", vec![])])],
            want: want(vec![(1, "B.default"), (2, "B.default")]),
        },
        TestCase {
            name: "extra new and old releases are ignored",
            subnets: vec![subnet(1, "C.default"), subnet(2, "B.default")],
            releases: vec![
                release("D", vec![("D.default", vec![])]),
                release("C", vec![("C.default", vec![])]),
                release("B", vec![("B.default", vec![])]),
                release("A", vec![("A.default", vec![])]),
            ],
            want: want(vec![(1, "C.default"), (2, "C.default")]),
        },
        TestCase {
            name: "all subnets on same release, should proceed to upgrade everything to newer release",
            subnets: vec![subnet(1, "B.default"), subnet(2, "B.default")],
            releases: vec![
                release("D", vec![("D.default", vec![])]),
                release("C", vec![("C.default", vec![]), ("C.feature", vec![2])]),
                release("B", vec![("B.default", vec![])]),
                release("A", vec![("A.default", vec![])]),
            ],
            want: want(vec![(1, "C.default"), (2, "C.feature")]),
        },
        TestCase {
            name: "feature",
            subnets: vec![subnet(1, "B.default"), subnet(2, "A.default"), subnet(3, "A.default")],
            releases: vec![
                release("B", vec![("B.default", vec![]), ("B.feature", vec![2])]),
                release("A", vec![("A.default", vec![])]),
            ],
            want: want(vec![(1, "B.default"), (2, "B.feature"), (3, "B.default")]),
        },
    ] {
        let desired_release = desired_rollout_release_version(&tc.subnets, &tc.releases).expect("should resolve");
        assert_eq!(
            tc.want.into_iter().map(|(k, v)| (test_subnet_id(k), v)).collect::<Vec<_>>(),
            desired_release.subnets,
            "test case '{}' failed",
            tc.name,
        )
    }
}

/// Beginning of a new rollout: one proposal for the first stage.
#[test]
fn test_use_case_1() {
    let index = craft_index_state();
    let current_version = NEW_VERSION.to_string();
    let last_bake_status = vec![];
    let subnet_update_proposals = vec![];
    let unassigned_version = OLD_VERSION.to_string();
    let unassigned_nodes_proposals = vec![];
    let subnets = &craft_subnets();
    let now = date("2024-02-21");

    let maybe_actions = check_stages(
        &last_bake_status,
        &subnet_update_proposals,
        &unassigned_nodes_proposals,
        index,
        &unassigned_version,
        subnets,
        now,
    );

    assert!(maybe_actions.is_ok());
    let actions = maybe_actions.unwrap();

    assert_eq!(actions.len(), 1);
    for action in actions {
        match action {
            SubnetAction::PlaceProposal { is_unassigned, subnet_principal, version } => {
                assert_eq!(is_unassigned, false);
                assert_eq!(version, current_version);
                assert!(subnet_principal.starts_with("io67a"))
            }
            _ => assert!(false),
        }
    }
}

/// The first stage's proposal was submitted but is not executed yet.
#[test]
fn test_use_case_2() {
    let index = craft_index_state();
    let last_bake_status = vec![];
    let subnet_update_proposals = vec![SubnetUpdateProposal {
        info: ProposalInfo { executed: false, id: 1 },
        subnet_id: IO67A.to_string(),
        replica_version_id: NEW_VERSION.to_string(),
    }];
    let unassigned_version = OLD_VERSION.to_string();
    let unassigned_nodes_proposals = vec![];
    let subnets = &craft_subnets();
    let now = date("2024-02-21");

    let maybe_actions = check_stages(
        &last_bake_status,
        &subnet_update_proposals,
        &unassigned_nodes_proposals,
        index,
        &unassigned_version,
        subnets,
        now,
    );

    assert!(maybe_actions.is_ok());
    let actions = maybe_actions.unwrap();
    println!("{:#?}", actions);
    assert_eq!(actions.len(), 1);
    for action in actions {
        match action {
            SubnetAction::PendingProposal { subnet_short, proposal_id } => {
                assert_eq!(proposal_id, 1);
                assert!(IO67A.starts_with(&subnet_short))
            }
            _ => assert!(false),
        }
    }
}

/// The first stage's proposal was executed and the subnet is baking.
#[test]
fn test_use_case_3() {
    let index = craft_index_state();
    let last_bake_status = craft_bake_status(&[(IO67A, "3h")]);
    let subnet_update_proposals = vec![SubnetUpdateProposal {
        info: ProposalInfo { executed: true, id: 1 },
        subnet_id: IO67A.to_string(),
        replica_version_id: NEW_VERSION.to_string(),
    }];
    let unassigned_version = OLD_VERSION.to_string();
    let unassigned_nodes_proposals = vec![];
    let mut subnets = craft_subnets();
    replace_versions(&mut subnets, &[("io67a", NEW_VERSION)]);
    let now = date("2024-02-21");

    let maybe_actions = check_stages(
        &last_bake_status,
        &subnet_update_proposals,
        &unassigned_nodes_proposals,
        index,
        &unassigned_version,
        &subnets,
        now,
    );

    assert!(maybe_actions.is_ok());
    let actions = maybe_actions.unwrap();
    println!("{:#?}", actions);
    assert_eq!(actions.len(), 1);
    for action in actions {
        match action {
            SubnetAction::Baking { subnet_short, remaining } => {
                assert!(IO67A.starts_with(&subnet_short));
                assert_eq!(remaining, duration_secs("5h") as u64)
            }
            _ => assert!(false),
        }
    }
}

/// The first stage baked; proposals for the second stage.
#[test]
fn test_use_case_4() {
    let index = craft_index_state();
    let current_version = NEW_VERSION.to_string();
    let last_bake_status = craft_bake_status(&[(IO67A, "9h")]);
    let subnet_update_proposals = vec![SubnetUpdateProposal {
        info: ProposalInfo { executed: true, id: 1 },
        subnet_id: IO67A.to_string(),
        replica_version_id: NEW_VERSION.to_string(),
    }];
    let unassigned_version = OLD_VERSION.to_string();
    let unassigned_nodes_proposals = vec![];
    let mut subnets = craft_subnets();
    replace_versions(&mut subnets, &[("io67a", NEW_VERSION)]);
    let now = date("2024-02-21");

    let maybe_actions = check_stages(
        &last_bake_status,
        &subnet_update_proposals,
        &unassigned_nodes_proposals,
        index,
        &unassigned_version,
        &subnets,
        now,
    );

    assert!(maybe_actions.is_ok());
    let actions = maybe_actions.unwrap();
    println!("{:#?}", actions);
    assert_eq!(actions.len(), 2);
    let subnets = vec![SHEFU, UZR34];
    for action in actions {
        match action {
            SubnetAction::PlaceProposal { is_unassigned, subnet_principal, version } => {
                assert_eq!(is_unassigned, false);
                assert_eq!(version, current_version);
                assert!(subnets.contains(&subnet_principal.as_str()))
            }
            _ => assert!(false),
        }
    }
}

fn first_three_upgraded() -> (Vec<BakeSample>, Vec<SubnetUpdateProposal>, Vec<Subnet>) {
    let last_bake_status = craft_bake_status(&[(IO67A, "9h"), (SHEFU, "5h"), (UZR34, "5h")]);
    let subnet_update_proposals = craft_executed_proposals(&[IO67A, SHEFU, UZR34], NEW_VERSION);
    let mut subnets = craft_subnets();
    replace_versions(&mut subnets, &[("io67a", NEW_VERSION), ("shefu", NEW_VERSION), ("uzr34", NEW_VERSION)]);
    (last_bake_status, subnet_update_proposals, subnets)
}

/// Both subnet stages baked; the unassigned nodes get a proposal.
#[test]
fn test_use_case_5() {
    let index = craft_index_state();
    let current_version = NEW_VERSION.to_string();
    let (last_bake_status, subnet_update_proposals, subnets) = first_three_upgraded();
    let unassigned_version = OLD_VERSION.to_string();
    let unassigned_nodes_proposals = vec![];
    let now = date("2024-02-21");

    let maybe_actions = check_stages(
        &last_bake_status,
        &subnet_update_proposals,
        &unassigned_nodes_proposals,
        index,
        &unassigned_version,
        &subnets,
        now,
    );

    assert!(maybe_actions.is_ok());
    let actions = maybe_actions.unwrap();
    println!("{:#?}", actions);
    assert_eq!(actions.len(), 1);
    for action in actions {
        match action {
            SubnetAction::PlaceProposal { is_unassigned, subnet_principal: _, version } => {
                assert!(is_unassigned);
                assert_eq!(version, current_version);
            }
            _ => assert!(false),
        }
    }
}

/// The unassigned nodes' proposal was submitted but is not executed yet.
#[test]
fn test_use_case_6() {
    let index = craft_index_state();
    let (last_bake_status, subnet_update_proposals, subnets) = first_three_upgraded();
    let unassigned_version = OLD_VERSION.to_string();
    let unassigned_nodes_proposal = vec![executed_unassigned_proposal(5, false, NEW_VERSION)];
    let now = date("2024-02-21");

    let maybe_actions = check_stages(
        &last_bake_status,
        &subnet_update_proposals,
        &unassigned_nodes_proposal,
        index,
        &unassigned_version,
        &subnets,
        now,
    );

    assert!(maybe_actions.is_ok());
    let actions = maybe_actions.unwrap();
    println!("{:#?}", actions);
    assert_eq!(actions.len(), 1);
    for action in actions {
        match action {
            SubnetAction::PendingProposal { proposal_id, subnet_short } => {
                assert_eq!(proposal_id, 5);
                assert_eq!(subnet_short, "unassigned-version");
            }
            _ => assert!(false),
        }
    }
}

/// The unassigned nodes are upgraded; the last stage waits for next week.
#[test]
fn test_use_case_7() {
    let index = craft_index_state();
    let (last_bake_status, subnet_update_proposals, subnets) = first_three_upgraded();
    let unassigned_version = NEW_VERSION.to_string();
    let unassigned_nodes_proposal = vec![executed_unassigned_proposal(5, true, NEW_VERSION)];
    let now = date("2024-02-24");

    let maybe_actions = check_stages(
        &last_bake_status,
        &subnet_update_proposals,
        &unassigned_nodes_proposal,
        index,
        &unassigned_version,
        &subnets,
        now,
    );

    assert!(maybe_actions.is_ok());
    let actions = maybe_actions.unwrap();
    println!("{:#?}", actions);
    assert_eq!(actions.len(), 1);
    for action in actions {
        match action {
            SubnetAction::WaitForNextWeek { subnet_short } => {
                assert_eq!(subnet_short, "pjljw");
            }
            _ => assert!(false),
        }
    }
}

/// A Monday has passed; the last stage gets its proposal.
#[test]
fn test_use_case_8() {
    let index = craft_index_state();
    let current_version = NEW_VERSION.to_string();
    let (last_bake_status, subnet_update_proposals, subnets) = first_three_upgraded();
    let unassigned_version = NEW_VERSION.to_string();
    let unassigned_nodes_proposal = vec![executed_unassigned_proposal(5, true, NEW_VERSION)];
    let now = date("2024-02-28");

    let maybe_actions = check_stages(
        &last_bake_status,
        &subnet_update_proposals,
        &unassigned_nodes_proposal,
        index,
        &unassigned_version,
        &subnets,
        now,
    );

    assert!(maybe_actions.is_ok());
    let actions = maybe_actions.unwrap();
    println!("{:#?}", actions);
    assert_eq!(actions.len(), 1);
    for action in actions {
        match action {
            SubnetAction::PlaceProposal { is_unassigned, subnet_principal, version } => {
                assert!(subnet_principal.starts_with("pjljw"));
                assert_eq!(is_unassigned, false);
                assert_eq!(version, current_version)
            }
            _ => assert!(false),
        }
    }
}

/// Everything is upgraded and baked: the rollout is finished.
#[test]
fn test_use_case_9() {
    let index = craft_index_state();
    let last_bake_status = craft_bake_status(&[(IO67A, "9h"), (SHEFU, "5h"), (UZR34, "5h"), (PJLJW, "5h")]);
    let subnet_update_proposals = craft_executed_proposals(&[IO67A, SHEFU, UZR34, PJLJW], NEW_VERSION);
    let unassigned_version = NEW_VERSION.to_string();
    let unassigned_nodes_proposal = vec![executed_unassigned_proposal(5, true, NEW_VERSION)];
    let mut subnets = craft_subnets();
    replace_versions(
        &mut subnets,
        &[("io67a", NEW_VERSION), ("shefu", NEW_VERSION), ("uzr34", NEW_VERSION), ("pjljw", NEW_VERSION)],
    );
    let now = date("2024-02-28");

    let maybe_actions = check_stages(
        &last_bake_status,
        &subnet_update_proposals,
        &unassigned_nodes_proposal,
        index,
        &unassigned_version,
        &subnets,
        now,
    );

    assert!(maybe_actions.is_ok());
    let actions = maybe_actions.unwrap();
    assert_eq!(actions.len(), 0);
}

/// Feature builds, beginning of a new rollout.
#[test]
fn stage_checks_test_use_case_1() {
    let index = craft_feature_index_state();
    let last_bake_status = vec![];
    let subnet_update_proposals = vec![];
    let unassigned_version = OLD_VERSION.to_string();
    let unassigned_nodes_proposals = vec![];
    let subnets = &craft_subnets();
    let feature = index
        .releases
        .get(0)
        .expect("Should be at least one")
        .versions
        .get(1)
        .expect("Should be set to be the second version being rolled out")
        .clone();
    let now = date("2024-02-21");

    let maybe_actions = check_stages(
        &last_bake_status,
        &subnet_update_proposals,
        &unassigned_nodes_proposals,
        index.clone(),
        &unassigned_version,
        subnets,
        now,
    );

    assert!(maybe_actions.is_ok());
    let actions = maybe_actions.unwrap();
    assert_eq!(actions.len(), 1);
    for action in actions {
        match action {
            SubnetAction::PlaceProposal { is_unassigned, subnet_principal, version } => {
                assert_eq!(is_unassigned, false);
                assert_eq!(version, feature.version);
                assert!(subnet_principal.starts_with("io67a"))
            }
            _ => assert!(false),
        }
    }
}

/// Feature builds, first stage baked: the pinned subnet gets the feature
/// build, the other the regular one.
#[test]
fn stage_checks_test_use_case_2() {
    let index = craft_feature_index_state();
    let current_version = NEW_VERSION.to_string();
    let last_bake_status = craft_bake_status(&[(IO67A, "9h")]);
    let subnet_update_proposals = vec![SubnetUpdateProposal {
        info: ProposalInfo { executed: true, id: 1 },
        subnet_id: IO67A.to_string(),
        replica_version_id: FEATURE_VERSION.to_string(),
    }];
    let unassigned_version = OLD_VERSION.to_string();
    let unassigned_nodes_proposals = vec![];
    let mut subnets = craft_subnets();
    replace_versions(&mut subnets, &[("io67a", FEATURE_VERSION)]);
    let feature = index
        .releases
        .get(0)
        .expect("Should be at least one")
        .versions
        .get(1)
        .expect("Should be set to be the second version being rolled out")
        .clone();
    let now = date("2024-02-21");

    let maybe_actions = check_stages(
        &last_bake_status,
        &subnet_update_proposals,
        &unassigned_nodes_proposals,
        index.clone(),
        &unassigned_version,
        &subnets,
        now,
    );

    assert!(maybe_actions.is_ok());
    let actions = maybe_actions.unwrap();
    println!("{:#?}", actions);
    assert_eq!(actions.len(), 2);
    let subnets = vec![SHEFU, UZR34];
    for action in actions {
        match action {
            SubnetAction::PlaceProposal { is_unassigned, subnet_principal, version } => {
                assert_eq!(is_unassigned, false);
                if subnet_principal.starts_with("shefu") {
                    assert_eq!(version, feature.version);
                } else {
                    assert_eq!(version, current_version);
                }
                assert!(subnets.contains(&subnet_principal.as_str()))
            }
            _ => assert!(false),
        }
    }
}
