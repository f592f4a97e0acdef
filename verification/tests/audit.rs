use fingerprint_audit::AuditReport;
use fingerprint_audit::BATCH_SIZE;
use fingerprint_audit::Batch;
use fingerprint_audit::ExactMatch;
use fingerprint_audit::File;
use fingerprint_audit::MatchResult;
use fingerprint_audit::Module;
use fingerprint_audit::Package;
use fingerprint_audit::ServiceChoice;
use fingerprint_audit::aggregate;
use fingerprint_audit::audit_batches;
use fingerprint_audit::extract_fingerprints;
use fingerprint_audit::fingerprints_of_package;
use fingerprint_audit::make_batches;
use fingerprint_audit::request_body;

fn package_of(fingerprint_lists: &[&[u32]]) -> Package {
    Package {
        latest_files: fingerprint_lists
            .iter()
            .map(|fps| File {
                modules: fps.iter().map(|&f| Module { fingerprint: f }).collect(),
            })
            .collect(),
    }
}

fn result_of(ids: &[i32]) -> MatchResult {
    MatchResult {
        exact_matches: ids.iter().map(|&id| ExactMatch { id }).collect(),
    }
}

fn sorted_fingerprints(batch: &Batch) -> Vec<u32> {
    let mut fps = batch.fingerprints.clone();
    fps.sort();
    fps
}

#[test]
fn extractor_preserves_nested_order() {
    let p = package_of(&[&[5, 3], &[], &[3, 9]]);
    assert_eq!(fingerprints_of_package(&p), vec![5, 3, 3, 9]);
}

#[test]
fn extractor_empty_package_yields_empty_list() {
    let p = package_of(&[]);
    assert_eq!(fingerprints_of_package(&p), Vec::<u32>::new());
    let with_empty_file = package_of(&[&[]]);
    assert_eq!(fingerprints_of_package(&with_empty_file), Vec::<u32>::new());
}

#[test]
fn extractor_preserves_package_order() {
    let catalog = vec![package_of(&[&[1]]), package_of(&[]), package_of(&[&[2, 1]])];
    let lists = extract_fingerprints(&catalog);
    assert_eq!(lists, vec![vec![1], vec![], vec![2, 1]]);
}

#[test]
fn batcher_deduplicates_within_chunk() {
    let lists = vec![vec![1, 2, 2], vec![2, 3]];
    let batches = make_batches(&lists, 25);
    assert_eq!(batches.len(), 1);
    assert_eq!(sorted_fingerprints(&batches[0]), vec![1, 2, 3]);
}

#[test]
fn batcher_deduplicates_per_chunk_not_globally() {
    // Two packages share fingerprint 7 but land in different chunks:
    // each chunk's batch carries its own copy.
    let lists = vec![vec![7, 1], vec![7, 2]];
    let batches = make_batches(&lists, 1);
    assert_eq!(batches.len(), 2);
    assert_eq!(sorted_fingerprints(&batches[0]), vec![1, 7]);
    assert_eq!(sorted_fingerprints(&batches[1]), vec![2, 7]);
}

#[test]
fn batcher_last_chunk_may_be_smaller() {
    let lists = vec![vec![1], vec![2], vec![3], vec![4], vec![5]];
    let batches = make_batches(&lists, 2);
    assert_eq!(batches.len(), 3);
    assert_eq!(sorted_fingerprints(&batches[0]), vec![1, 2]);
    assert_eq!(sorted_fingerprints(&batches[1]), vec![3, 4]);
    assert_eq!(sorted_fingerprints(&batches[2]), vec![5]);
}

#[test]
fn batcher_empty_input_yields_no_batches() {
    let batches = make_batches(&Vec::new(), 25);
    assert!(batches.is_empty());
}

#[test]
fn batching_union_covers_all_fingerprints() {
    // The union over all batches equals the set of all input
    // fingerprints, and every batch is internally deduplicated.
    let lists = vec![vec![1, 2, 2, 3], vec![3, 4], vec![5], vec![1, 6]];
    for batch_size in [1usize, 2, 3, 25] {
        let batches = make_batches(&lists, batch_size);
        let mut union: Vec<u32> = batches
            .iter()
            .flat_map(|b| b.fingerprints.iter().copied())
            .collect();
        union.sort();
        union.dedup();
        assert_eq!(union, vec![1, 2, 3, 4, 5, 6]);
        for b in &batches {
            let mut fps = sorted_fingerprints(b);
            let before = fps.len();
            fps.dedup();
            assert_eq!(fps.len(), before);
        }
    }
}

#[test]
fn audit_batches_is_idempotent() {
    let catalog = vec![
        package_of(&[&[1, 2], &[3]]),
        package_of(&[&[2, 4]]),
        package_of(&[&[5]]),
    ];
    let first = audit_batches(&catalog, 2);
    let second = audit_batches(&catalog, 2);
    assert_eq!(first.len(), second.len());
    for (a, b) in first.iter().zip(second.iter()) {
        assert_eq!(sorted_fingerprints(a), sorted_fingerprints(b));
    }
}

#[test]
fn primary_body_is_bare_array() {
    let batch = Batch { fingerprints: vec![1, 25, 0] };
    let body = request_body(ServiceChoice::Primary, &batch);
    assert_eq!(body, b"[1,25,0]".to_vec());
}

#[test]
fn primary_body_of_empty_batch() {
    let batch = Batch { fingerprints: vec![] };
    let body = request_body(ServiceChoice::Primary, &batch);
    assert_eq!(body, b"[]".to_vec());
}

#[test]
fn secondary_body_wraps_array_in_object() {
    let batch = Batch { fingerprints: vec![7] };
    let body = request_body(ServiceChoice::Secondary, &batch);
    assert_eq!(body, b"{\"fingerprints\":[7]}".to_vec());
    let large = Batch { fingerprints: vec![4294967295, 12] };
    let body = request_body(ServiceChoice::Secondary, &large);
    assert_eq!(body, b"{\"fingerprints\":[4294967295,12]}".to_vec());
}

#[test]
fn service_endpoints_and_labels() {
    assert_eq!(
        ServiceChoice::Primary.fingerprint_url(),
        "https://addons-ecs.forgesvc.net/api/v2/fingerprint"
    );
    assert_eq!(
        ServiceChoice::Secondary.fingerprint_url(),
        "https://hub.wowup.io/curseforge/addons/fingerprint"
    );
    assert_eq!(ServiceChoice::Primary.label(), "curse_api");
    assert_eq!(ServiceChoice::Secondary.label(), "wowup_api");
}

#[test]
fn single_batch_scenario() {
    // Catalog of two packages, A with fingerprints {1,2}, B with {2,3},
    // at the default batch size: one batch. The primary service matches
    // A, the secondary matches B.
    let catalog = vec![package_of(&[&[1, 2]]), package_of(&[&[2, 3]])];
    let batches = audit_batches(&catalog, BATCH_SIZE);
    assert_eq!(batches.len(), 1);
    assert_eq!(sorted_fingerprints(&batches[0]), vec![1, 2, 3]);

    let primary = vec![Some(result_of(&[1]))];
    let secondary = vec![Some(result_of(&[2]))];
    let report = aggregate(&primary, &secondary);
    assert_eq!(report.unique_across_services, 2);
    assert_eq!(report.primary_distinct, 1);
    assert_eq!(report.secondary_distinct, 1);
    assert_eq!(report.primary_match_total, 1);
    assert_eq!(report.secondary_match_total, 1);
}

#[test]
fn batch_size_one_scenario() {
    // Three packages at batch size 1: three batches, so one request per
    // batch and service, six bodies in all.
    let catalog = vec![
        package_of(&[&[1, 2]]),
        package_of(&[&[2]]),
        package_of(&[&[3]]),
    ];
    let batches = audit_batches(&catalog, 1);
    assert_eq!(batches.len(), 3);
    let mut bodies = Vec::new();
    for service in [ServiceChoice::Primary, ServiceChoice::Secondary] {
        for batch in &batches {
            bodies.push(request_body(service, batch));
        }
    }
    assert_eq!(bodies.len(), 6);
    assert_eq!(bodies[0], b"[1,2]".to_vec());
    assert_eq!(bodies[3], b"{\"fingerprints\":[1,2]}".to_vec());
}

#[test]
fn secondary_failure_leaves_primary_counts_intact() {
    // One secondary batch fails while the primary succeeds everywhere:
    // the primary's counts are those of a fully successful run, the
    // secondary's reflect only its successful batches.
    let primary = vec![Some(result_of(&[10, 11])), Some(result_of(&[12]))];
    let secondary_with_failure = vec![Some(result_of(&[10])), None];
    let secondary_with_empty = vec![Some(result_of(&[10])), Some(result_of(&[]))];

    let report = aggregate(&primary, &secondary_with_failure);
    assert_eq!(report.primary_distinct, 3);
    assert_eq!(report.primary_match_total, 3);
    assert_eq!(report.secondary_distinct, 1);
    assert_eq!(report.secondary_match_total, 1);
    assert_eq!(report.unique_across_services, 3);

    // A failed pair contributes exactly what an empty success would.
    let baseline = aggregate(&primary, &secondary_with_empty);
    assert_eq!(report, baseline);

    // The failing service is named by its label in the error line.
    assert_eq!(ServiceChoice::Secondary.label(), "wowup_api");
}

#[test]
fn raw_count_never_below_distinct_count() {
    // Duplicate identifiers across batches raise the raw count but not
    // the distinct count.
    let primary = vec![Some(result_of(&[1, 2, 1])), Some(result_of(&[2]))];
    let secondary = vec![Some(result_of(&[2, 3]))];
    let report = aggregate(&primary, &secondary);
    assert_eq!(report.primary_match_total, 4);
    assert_eq!(report.primary_distinct, 2);
    assert!(report.primary_distinct <= report.primary_match_total);
    assert!(report.secondary_distinct <= report.secondary_match_total);
    assert!(
        report.unique_across_services <= report.primary_distinct + report.secondary_distinct
    );
    assert_eq!(report.unique_across_services, 3);
}

#[test]
fn aggregate_of_no_outcomes_is_all_zero() {
    let report = aggregate(&Vec::new(), &Vec::new());
    let zero = AuditReport {
        unique_across_services: 0,
        primary_distinct: 0,
        primary_match_total: 0,
        secondary_distinct: 0,
        secondary_match_total: 0,
    };
    assert_eq!(report, zero);
}

#[test]
fn all_failures_degrade_to_zero_counts() {
    let primary = vec![None, None];
    let secondary = vec![Some(result_of(&[5]))];
    let report = aggregate(&primary, &secondary);
    assert_eq!(report.primary_distinct, 0);
    assert_eq!(report.primary_match_total, 0);
    assert_eq!(report.secondary_distinct, 1);
    assert_eq!(report.unique_across_services, 1);
}
