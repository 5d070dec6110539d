use ena_links::accession::{AccessionCodes, ParseError};

#[test]
fn recognized_prefixes_give_matching_variant() {
    assert!(matches!(
        AccessionCodes::from_str("SRX2243567"),
        Ok(AccessionCodes::Srx(_))
    ));
    assert!(matches!(
        AccessionCodes::from_str("SRR000001"),
        Ok(AccessionCodes::Srr(_))
    ));
    assert!(matches!(
        AccessionCodes::from_str("GSM2344754"),
        Ok(AccessionCodes::Gsm(_))
    ));
}

#[test]
fn prefixes_are_case_insensitive() {
    assert!(matches!(
        AccessionCodes::from_str("srx2243567"),
        Ok(AccessionCodes::Srx(_))
    ));
    assert!(matches!(
        AccessionCodes::from_str("SrR000001"),
        Ok(AccessionCodes::Srr(_))
    ));
    assert!(matches!(
        AccessionCodes::from_str("gsm2344754"),
        Ok(AccessionCodes::Gsm(_))
    ));
    assert!(matches!(
        AccessionCodes::from_str("gSm2344754"),
        Ok(AccessionCodes::Gsm(_))
    ));
}

#[test]
fn unrecognized_prefix_is_rejected() {
    assert!(matches!(
        AccessionCodes::from_str("ERR000001"),
        Err(ParseError::UnknownPrefix)
    ));
    assert!(matches!(
        AccessionCodes::from_str("ABC123"),
        Err(ParseError::UnknownPrefix)
    ));
    // Too short to hold any recognized prefix.
    assert!(matches!(
        AccessionCodes::from_str("SR"),
        Err(ParseError::UnknownPrefix)
    ));
}

#[test]
fn code_and_name_are_kept_verbatim() {
    match AccessionCodes::from_str("SRR000001 mysample") {
        Ok(AccessionCodes::Srr(srr)) => {
            assert_eq!(srr.acc, "SRR000001");
            assert_eq!(srr.name, Some("mysample".to_string()));
        }
        other => panic!("expected a run accession, got {:?}", other),
    }
}

#[test]
fn name_is_absent_when_not_supplied() {
    match AccessionCodes::from_str("srr000001") {
        Ok(AccessionCodes::Srr(srr)) => {
            assert_eq!(srr.acc, "srr000001");
            assert_eq!(srr.name, None);
        }
        other => panic!("expected a run accession, got {:?}", other),
    }
}

#[test]
fn three_tokens_are_too_many() {
    assert!(matches!(
        AccessionCodes::from_str("SRR1 SRR2 extra"),
        Err(ParseError::TooManyFields)
    ));
}

#[test]
fn empty_and_blank_lines_are_empty_input() {
    assert!(matches!(
        AccessionCodes::from_str(""),
        Err(ParseError::EmptyInput)
    ));
    assert!(matches!(
        AccessionCodes::from_str("  \t "),
        Err(ParseError::EmptyInput)
    ));
}

#[test]
fn any_whitespace_run_separates_tokens() {
    match AccessionCodes::from_str("\tSRX1 \t  label\n") {
        Ok(AccessionCodes::Srx(srx)) => {
            assert_eq!(srx.acc, "SRX1");
            assert_eq!(srx.name, Some("label".to_string()));
        }
        other => panic!("expected an experiment accession, got {:?}", other),
    }
}

#[test]
fn accessors_return_the_stored_fields() {
    let a = AccessionCodes::from_str("GSM1 tag").unwrap();
    assert_eq!(a.orig_accession(), "GSM1");
    assert_eq!(a.name(), Some("tag".to_string()));
    let b = AccessionCodes::from_str("GSM1").unwrap();
    assert_eq!(b.name(), None);
}

#[test]
fn unicode_whitespace_separates_tokens() {
    // No-break space and em space are whitespace too.
    match AccessionCodes::from_str("SRX9\u{a0}tag") {
        Ok(AccessionCodes::Srx(srx)) => {
            assert_eq!(srx.acc, "SRX9");
            assert_eq!(srx.name, Some("tag".to_string()));
        }
        other => panic!("expected an experiment accession, got {:?}", other),
    }
    assert!(matches!(
        AccessionCodes::from_str("GSM1\u{2003}a\u{2003}b"),
        Err(ParseError::TooManyFields)
    ));
}
