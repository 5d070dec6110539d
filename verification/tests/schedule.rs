use ena_links::accession::{AccessionCodes, ParseError};
use ena_links::record::DownloadInfo;
use ena_links::schedule::{collect_results, plan_line, LineAction};

#[test]
fn blank_lines_are_skipped() {
    assert!(matches!(plan_line(""), LineAction::Skip));
    assert!(matches!(plan_line(" \t "), LineAction::Skip));
}

#[test]
fn well_formed_lines_launch_a_pipeline() {
    match plan_line("SRR000001 mysample") {
        LineAction::Launch(AccessionCodes::Srr(srr)) => {
            assert_eq!(srr.acc, "SRR000001");
            assert_eq!(srr.name, Some("mysample".to_string()));
        }
        other => panic!("expected a launch, got {:?}", other),
    }
}

#[test]
fn malformed_lines_are_rejected_not_fatal() {
    assert!(matches!(
        plan_line("SRR1 SRR2 extra"),
        LineAction::Reject(ParseError::TooManyFields)
    ));
    assert!(matches!(
        plan_line("ABC123"),
        LineAction::Reject(ParseError::UnknownPrefix)
    ));
}

fn descriptor(tag: &str) -> DownloadInfo {
    DownloadInfo::new(
        None,
        "SRR1".to_string(),
        tag.to_string(),
        "host/f.gz".to_string(),
        "m".to_string(),
        "a".to_string(),
    )
}

#[test]
fn collection_concatenates_in_pipeline_order() {
    let parts = vec![
        Some(vec![descriptor("r1"), descriptor("r2")]),
        None,
        Some(vec![descriptor("r3")]),
        Some(Vec::new()),
    ];
    let all = collect_results(parts);
    assert_eq!(all.len(), 3);
    assert_eq!(all[0].run_acc, "r1");
    assert_eq!(all[1].run_acc, "r2");
    assert_eq!(all[2].run_acc, "r3");
}

#[test]
fn collected_count_is_the_sum_of_pipeline_counts() {
    let counts = [3usize, 0, 1, 2];
    let parts: Vec<Option<Vec<DownloadInfo>>> = counts
        .iter()
        .map(|&n| Some((0..n).map(|i| descriptor(&format!("r{}", i))).collect()))
        .collect();
    let sum: usize = counts.iter().sum();
    assert_eq!(collect_results(parts).len(), sum);
}

#[test]
fn empty_batches_collect_to_nothing() {
    assert_eq!(collect_results(Vec::new()).len(), 0);
    assert_eq!(collect_results(vec![None, None]).len(), 0);
}
