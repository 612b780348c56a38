use bgzf_engine::alt_allele::{
    parse_alternative_allele, AlternativeAllele, ParseError, StructuralVariant, SvType, Symbol,
};

#[test]
fn test_parse_filter() {
    let src = &br#"<ID=DEL,Description="Deletion">"#[..];

    let id = Symbol::StructuralVariant(StructuralVariant::new(SvType::Deletion));
    let map = AlternativeAllele::new("Deletion");
    let expected = (id, map);

    assert_eq!(parse_alternative_allele(src), Ok(expected));
}

#[test]
fn test_parse_alternative_allele_errors() {
    assert_eq!(
        parse_alternative_allele(b"ID=DEL"),
        Err(ParseError::InvalidMap)
    );
    assert_eq!(
        parse_alternative_allele(br#"<Description="Deletion">"#),
        Err(ParseError::MissingId)
    );
    assert_eq!(
        parse_alternative_allele(b"<ID=DEL>"),
        Err(ParseError::MissingDescription)
    );
    assert_eq!(
        parse_alternative_allele(br#"<ID=XYZ,Description="x">"#),
        Err(ParseError::InvalidId)
    );
    assert_eq!(
        parse_alternative_allele(br#"<ID=DEL,ID=INS,Description="x">"#),
        Err(ParseError::DuplicateTag)
    );
    assert_eq!(
        parse_alternative_allele(br#"<ID=DEL,Description="a",Description="b">"#),
        Err(ParseError::DuplicateTag)
    );
    assert_eq!(
        parse_alternative_allele(br#"<ID=DEL,Source="a",Source="b">"#),
        Err(ParseError::DuplicateTag)
    );
    assert_eq!(
        parse_alternative_allele(br#"<=DEL,Description="x">"#),
        Err(ParseError::InvalidKey)
    );
}

#[test]
fn test_parse_alternative_allele_subtypes_and_others() {
    let src = &br#"<ID=DUP:TANDEM,Description="Tandem duplication",Source="dbVar">"#[..];
    let (id, map) = parse_alternative_allele(src).unwrap();
    match id {
        Symbol::StructuralVariant(sv) => {
            assert_eq!(sv.ty, SvType::Duplication);
            assert_eq!(sv.subtypes, vec!["TANDEM".to_string()]);
        }
    }
    assert_eq!(map.description, "Tandem duplication");
    assert_eq!(bgzf_engine::alt_allele::im_len(&map.other_fields), 1);
}
