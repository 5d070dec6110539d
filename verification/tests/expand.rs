use ena_links::accession::{AccessionCodes, Srr};
use ena_links::record::{DownloadInfo, EnaRecord};

fn run_accession(acc: &str, name: Option<&str>) -> AccessionCodes {
    AccessionCodes::Srr(Srr {
        acc: acc.to_string(),
        name: name.map(|n| n.to_string()),
    })
}

fn record(run: &str, md5: &str, ftp: &str, aspera: &str) -> EnaRecord {
    EnaRecord {
        experiment_accession: "SRX1".to_string(),
        run_accession: run.to_string(),
        fastq_md5: md5.to_string(),
        fastq_ftp: ftp.to_string(),
        fastq_aspera: aspera.to_string(),
    }
}

#[test]
fn delimited_fields_are_zipped_positionally() {
    let acc = run_accession("SRR9", None);
    let recs = vec![record("SRR9", "a;b", "x;y", "p;q")];
    let infos = acc.expand(&recs);
    assert_eq!(infos.len(), 2);
    assert_eq!(infos[0].md5, "a");
    assert_eq!(infos[0].http_url, "https://x");
    assert_eq!(infos[0].ascp_url, "era-fasp@p");
    assert_eq!(infos[1].md5, "b");
    assert_eq!(infos[1].http_url, "https://y");
    assert_eq!(infos[1].ascp_url, "era-fasp@q");
}

#[test]
fn zipping_stops_at_the_shortest_field() {
    let acc = run_accession("SRR9", None);
    let recs = vec![record("SRR9", "a;b", "x", "p;q")];
    let infos = acc.expand(&recs);
    assert_eq!(infos.len(), 1);
    assert_eq!(infos[0].md5, "a");
    assert_eq!(infos[0].http_url, "https://x");
    assert_eq!(infos[0].ascp_url, "era-fasp@p");
}

#[test]
fn records_expand_in_order() {
    let acc = run_accession("SRR9", Some("lib"));
    let recs = vec![
        record("SRR1", "m1", "u1", "s1"),
        record("SRR2", "m2;m3", "u2;u3", "s2;s3"),
    ];
    let infos = acc.expand(&recs);
    assert_eq!(infos.len(), 3);
    assert_eq!(infos[0].run_acc, "SRR1");
    assert_eq!(infos[1].run_acc, "SRR2");
    assert_eq!(infos[1].md5, "m2");
    assert_eq!(infos[2].md5, "m3");
    for info in &infos {
        assert_eq!(info.orig_acc, "SRR9");
        assert_eq!(info.name, Some("lib".to_string()));
    }
}

#[test]
fn paired_end_with_index_file_gives_three_descriptors() {
    let acc = run_accession("SRR000001", None);
    let recs = vec![record(
        "SRR000001",
        "m0;m1;m2",
        "host/SRR000001.fastq.gz;host/SRR000001_1.fastq.gz;host/SRR000001_2.fastq.gz",
        "fasp/SRR000001.fastq.gz;fasp/SRR000001_1.fastq.gz;fasp/SRR000001_2.fastq.gz",
    )];
    let infos = acc.expand(&recs);
    assert_eq!(infos.len(), 3);
    for info in &infos {
        assert_eq!(info.run_acc, "SRR000001");
        assert!(!info.md5.is_empty());
    }
}

#[test]
fn download_path_uses_the_supplied_name() {
    let info = DownloadInfo::new(
        Some("foo".to_string()),
        "SRR1".to_string(),
        "SRR1".to_string(),
        "host/dir/SRR1.fastq.gz".to_string(),
        "m".to_string(),
        "a".to_string(),
    );
    assert_eq!(info.download_path(), "foo/SRR1.fastq.gz");
    assert_eq!(info.download_path, Some("foo/SRR1.fastq.gz".to_string()));
}

#[test]
fn download_path_without_a_name_uses_both_accessions() {
    let info = DownloadInfo::new(
        None,
        "SRX7".to_string(),
        "SRR1".to_string(),
        "host/dir/SRR1.fastq.gz".to_string(),
        "m".to_string(),
        "a".to_string(),
    );
    assert_eq!(info.download_path(), "SRX7/SRR1/SRR1.fastq.gz");
}

#[test]
fn download_path_of_a_slashless_url_is_the_whole_url() {
    let info = DownloadInfo::new(
        Some("n".to_string()),
        "SRR1".to_string(),
        "SRR1".to_string(),
        "file.gz".to_string(),
        "m".to_string(),
        "a".to_string(),
    );
    assert_eq!(info.download_path(), "n/file.gz");
}

#[test]
fn aria2_stanza_has_the_four_lines() {
    let info = DownloadInfo::new(
        Some("foo".to_string()),
        "SRR1".to_string(),
        "SRR1".to_string(),
        "host/SRR1.fastq.gz".to_string(),
        "d41d8cd98f00b204e9800998ecf8427e".to_string(),
        "a".to_string(),
    );
    assert_eq!(
        info.to_aria2(),
        "host/SRR1.fastq.gz\n checksum=md5=d41d8cd98f00b204e9800998ecf8427e\n check-integrity=true\n out=foo/SRR1.fastq.gz\n"
    );
}

#[test]
fn expansion_prepends_scheme_and_credential_prefixes() {
    let acc = run_accession("SRR5", None);
    let recs = vec![record(
        "SRR5",
        "sum",
        "ftp.example/SRR5.fastq.gz",
        "fasp.example:/SRR5.fastq.gz",
    )];
    let infos = acc.expand(&recs);
    assert_eq!(infos.len(), 1);
    assert_eq!(infos[0].http_url, "https://ftp.example/SRR5.fastq.gz");
    assert_eq!(infos[0].ascp_url, "era-fasp@fasp.example:/SRR5.fastq.gz");
    assert_eq!(
        infos[0].download_path,
        Some("SRR5/SRR5/SRR5.fastq.gz".to_string())
    );
}
