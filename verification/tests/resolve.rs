use ena_links::accession::AccessionCodes;
use ena_links::resolve::{
    extract_experiment_code, pick_sra_target, resolve_sample_response, Relation, ResolveError,
};

#[test]
fn experiment_and_run_accessions_are_queryable_as_given() {
    let srx = AccessionCodes::from_str("SRX2243567").unwrap();
    assert_eq!(srx.direct_queryable(), Some("SRX2243567".to_string()));
    let srr = AccessionCodes::from_str("srr000001").unwrap();
    assert_eq!(srr.direct_queryable(), Some("srr000001".to_string()));
}

#[test]
fn sample_accessions_need_the_lookup() {
    let gsm = AccessionCodes::from_str("GSM2344754").unwrap();
    assert_eq!(gsm.direct_queryable(), None);
}

#[test]
fn extraction_finds_the_embedded_code() {
    assert_eq!(
        extract_experiment_code("https://www.ncbi.nlm.nih.gov/sra?term=SRX2243567"),
        Some("SRX2243567".to_string())
    );
}

#[test]
fn extraction_takes_the_leftmost_match() {
    assert_eq!(
        extract_experiment_code("SRX11 then SRX22"),
        Some("SRX11".to_string())
    );
}

#[test]
fn extraction_takes_the_whole_digit_run() {
    assert_eq!(
        extract_experiment_code("xSRX123abc456"),
        Some("SRX123".to_string())
    );
}

#[test]
fn extraction_needs_prefix_and_digits() {
    assert_eq!(extract_experiment_code("SRX"), None);
    assert_eq!(extract_experiment_code("SRXabc"), None);
    assert_eq!(extract_experiment_code("srx123"), None);
    assert_eq!(extract_experiment_code("no code here"), None);
}

fn relation(rel_type: &str, target: &str) -> Relation {
    Relation {
        rel_type: rel_type.to_string(),
        target: target.to_string(),
    }
}

#[test]
fn the_first_sra_relation_wins() {
    let rels = vec![
        relation("BioSample", "https://www.ncbi.nlm.nih.gov/biosample/1"),
        relation("SRA", "first"),
        relation("SRA", "second"),
    ];
    assert_eq!(pick_sra_target(&rels), Some("first".to_string()));
}

#[test]
fn no_sra_relation_means_no_target() {
    let rels = vec![relation("BioSample", "x")];
    assert_eq!(pick_sra_target(&rels), None);
    assert_eq!(pick_sra_target(&Vec::new()), None);
}

#[test]
fn a_sample_with_an_sra_relation_resolves() {
    let xml = "<MINiML>\
        <Sample iid=\"GSM2344754\">\
            <Relation type=\"BioSample\" target=\"https://www.ncbi.nlm.nih.gov/biosample/SAMN05920520\"/>\
            <Relation type=\"SRA\" target=\"https://www.ncbi.nlm.nih.gov/sra?term=SRX2243567\"/>\
        </Sample>\
    </MINiML>";
    assert_eq!(
        resolve_sample_response(xml),
        Ok(Some("SRX2243567".to_string()))
    );
}

#[test]
fn a_document_without_a_sample_has_no_cross_reference() {
    let xml = "<MINiML><Series iid=\"GSE1\"/></MINiML>";
    assert_eq!(resolve_sample_response(xml), Ok(None));
}

#[test]
fn a_sample_without_an_sra_relation_has_no_cross_reference() {
    let xml = "<MINiML>\
        <Sample iid=\"GSM1\">\
            <Relation type=\"BioSample\" target=\"https://www.ncbi.nlm.nih.gov/biosample/1\"/>\
        </Sample>\
    </MINiML>";
    assert_eq!(resolve_sample_response(xml), Ok(None));
}

#[test]
fn an_sra_target_without_a_code_is_no_cross_reference() {
    let xml = "<MINiML>\
        <Sample iid=\"GSM1\">\
            <Relation type=\"SRA\" target=\"https://www.ncbi.nlm.nih.gov/sra\"/>\
        </Sample>\
    </MINiML>";
    assert_eq!(resolve_sample_response(xml), Ok(None));
}

#[test]
fn malformed_text_is_a_structural_fault() {
    assert_eq!(
        resolve_sample_response("this is not xml <<<"),
        Err(ResolveError::MalformedDocument)
    );
}

#[test]
fn a_relation_without_its_attributes_is_a_structural_fault() {
    let xml = "<MINiML>\
        <Sample iid=\"GSM1\">\
            <Relation target=\"https://www.ncbi.nlm.nih.gov/sra?term=SRX1\"/>\
        </Sample>\
    </MINiML>";
    assert_eq!(
        resolve_sample_response(xml),
        Err(ResolveError::MissingAttribute)
    );
}

#[test]
fn text_between_elements_is_ignored() {
    let xml = "<MINiML>\n  <Sample iid=\"GSM1\">\n    \
        <Relation type=\"SRA\" target=\"term=SRX77\"/>\n  </Sample>\n</MINiML>";
    assert_eq!(resolve_sample_response(xml), Ok(Some("SRX77".to_string())));
}

#[test]
fn nesting_beyond_the_bound_is_refused_before_parsing() {
    // Two hundred thousand nesting levels would exhaust the parser's stack;
    // the resolver measures the nesting first and refuses the text outright.
    let depth = 200_000;
    let xml = format!("{}{}", "<a>".repeat(depth), "</a>".repeat(depth));
    assert_eq!(
        resolve_sample_response(&xml),
        Err(ResolveError::ExcessiveNesting)
    );
    // One level past the bound is refused the same way.
    let just_over = format!("{}{}", "<a>".repeat(65), "</a>".repeat(65));
    assert_eq!(
        resolve_sample_response(&just_over),
        Err(ResolveError::ExcessiveNesting)
    );
}

#[test]
fn nesting_up_to_the_bound_is_handled() {
    // Conversion and teardown walk the tree with their own work lists.
    let deep = format!("{}{}", "<a>".repeat(64), "</a>".repeat(64));
    assert_eq!(resolve_sample_response(&deep), Ok(None));
}

#[test]
fn breadth_is_not_nesting() {
    // Thousands of siblings nest only two levels deep.
    let wide = format!("<r>{}</r>", "<b/>".repeat(5_000));
    assert_eq!(resolve_sample_response(&wide), Ok(None));
}

#[test]
fn markup_inside_cdata_and_comments_is_inert() {
    // Fake tags in CDATA and comments neither nest nor close anything.
    let xml = "<MINiML><!-- </MINiML><a><a> -->\
        <Sample iid=\"GSM1\"><![CDATA[</Sample><a><a><a>]]>\
            <Relation type=\"SRA\" target=\"term=SRX5\"/>\
        </Sample>\
    </MINiML>";
    assert_eq!(resolve_sample_response(xml), Ok(Some("SRX5".to_string())));
}
