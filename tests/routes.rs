use cape_eqs::routes::{missing_routes, ApiRouteKey};
use cape_eqs::wallet_routes::{
    closewallet, wallet_request, ApiRouteKey as WalletRouteKey, RouteBinding, SegmentError, TaggedIdent,
    UrlSegmentType, UrlSegmentValue, WalletRequestError,
};
use tagged_base64::TaggedBase64;

#[test]
fn query_route_keys_round_trip() {
    for k in ApiRouteKey::all() {
        assert_eq!(ApiRouteKey::from_str(k.as_str()), Some(k));
    }
    assert_eq!(ApiRouteKey::all().len(), 5);
    assert_eq!(ApiRouteKey::from_str("get_events_since"), Some(ApiRouteKey::get_events_since));
    assert_eq!(ApiRouteKey::from_str("get_transaction_by_hash"), None);
    assert_eq!(ApiRouteKey::from_str(""), None);
}

#[test]
fn wallet_route_keys_round_trip() {
    let all = WalletRouteKey::all();
    assert_eq!(all.len(), 18);
    for k in all {
        assert_eq!(WalletRouteKey::from_str(k.as_str()), Some(k));
    }
    assert_eq!(WalletRouteKey::from_str("newwallet"), Some(WalletRouteKey::newwallet));
    assert_eq!(WalletRouteKey::from_str("subscribe"), None);
}

#[test]
fn missing_routes_are_listed_in_order() {
    let names: Vec<String> = ApiRouteKey::all().iter().map(|k| k.as_str().to_string()).collect();
    let defined = vec!["get_cap_state".to_string(), "check_nullifier".to_string(), "other".to_string()];
    let missing = missing_routes(&names, &defined);
    assert_eq!(missing, vec!["get_all_nullifiers".to_string(), "get_events_since".to_string(), "get_transaction".to_string()]);
    assert!(missing_routes(&names, &names).is_empty());
}

#[test]
fn segment_types_by_name() {
    assert_eq!(UrlSegmentType::from_str("Hexadecimal"), Some(UrlSegmentType::Hexadecimal));
    assert_eq!(UrlSegmentType::from_str("TaggedBase64"), Some(UrlSegmentType::TaggedBase64));
    assert_eq!(UrlSegmentType::from_str("hexadecimal"), None);
}

#[test]
fn parse_booleans() {
    assert!(matches!(UrlSegmentValue::parse(UrlSegmentType::Boolean, "true"), Some(UrlSegmentValue::Boolean(true))));
    assert!(matches!(UrlSegmentValue::parse(UrlSegmentType::Boolean, "false"), Some(UrlSegmentValue::Boolean(false))));
    assert!(UrlSegmentValue::parse(UrlSegmentType::Boolean, "True").is_none());
}

#[test]
fn parse_integers() {
    assert!(matches!(UrlSegmentValue::parse(UrlSegmentType::Hexadecimal, "ff"), Some(UrlSegmentValue::Hexadecimal(255))));
    assert!(matches!(UrlSegmentValue::parse(UrlSegmentType::Hexadecimal, "+1A"), Some(UrlSegmentValue::Hexadecimal(26))));
    assert!(matches!(UrlSegmentValue::parse(UrlSegmentType::Integer, "1234"), Some(UrlSegmentValue::Integer(1234))));
    assert!(UrlSegmentValue::parse(UrlSegmentType::Integer, "12a").is_none());
    assert!(UrlSegmentValue::parse(UrlSegmentType::Integer, "").is_none());
    assert!(UrlSegmentValue::parse(UrlSegmentType::Integer, "-1").is_none());
    let max = u128::MAX.to_string();
    assert!(matches!(UrlSegmentValue::parse(UrlSegmentType::Integer, &max), Some(UrlSegmentValue::Integer(u128::MAX))));
    let over = format!("{}0", max);
    assert!(UrlSegmentValue::parse(UrlSegmentType::Integer, &over).is_none());
}

#[test]
fn parse_tagged_identifier_and_path() {
    let tb = TaggedBase64::new("PATH", b"/tmp/wallet").unwrap();
    let text = tagged_base64::to_string(&tb);
    let v = UrlSegmentValue::parse(UrlSegmentType::TaggedBase64, &text).unwrap();
    match &v {
        UrlSegmentValue::Identifier(TaggedIdent { tag, value }) => {
            assert_eq!(tag, "PATH");
            assert_eq!(value, b"/tmp/wallet");
        }
        other => panic!("expected an identifier, got {:?}", other),
    }
    assert_eq!(v.as_path().unwrap(), "/tmp/wallet");
    assert_eq!(v.as_string().unwrap(), "/tmp/wallet");

    let other = tagged_base64::to_string(&TaggedBase64::new("KEY", b"abc").unwrap());
    let v = UrlSegmentValue::parse(UrlSegmentType::TaggedBase64, &other).unwrap();
    assert!(matches!(v.as_path(), Err(SegmentError::ExpectedPathTag)));

    let bad = tagged_base64::to_string(&TaggedBase64::new("PATH", &[0xff, 0xfe]).unwrap());
    let v = UrlSegmentValue::parse(UrlSegmentType::TaggedBase64, &bad).unwrap();
    assert!(matches!(v.as_path(), Err(SegmentError::InvalidUtf8)));

    assert!(UrlSegmentValue::parse(UrlSegmentType::TaggedBase64, "no delimiter").is_none());
}

#[test]
fn segment_accessors() {
    let lit = UrlSegmentValue::parse(UrlSegmentType::Literal, "hello").unwrap();
    assert_eq!(lit.as_string().unwrap(), "hello");
    assert!(matches!(lit.as_boolean(), Err(SegmentError::ExpectedBoolean)));
    assert!(matches!(lit.as_index(), Err(SegmentError::ExpectedIndex)));
    assert!(matches!(lit.as_identifier(), Err(SegmentError::ExpectedIdentifier)));
    assert!(matches!(lit.as_path(), Err(SegmentError::ExpectedIdentifier)));
    assert_eq!(UrlSegmentValue::Integer(7).as_index().unwrap(), 7);
    assert!(matches!(UrlSegmentValue::Integer(u128::MAX).as_index(), Err(SegmentError::ExpectedIndex)));
    assert!(UrlSegmentValue::Boolean(true).as_boolean().unwrap());
    assert!(matches!(UrlSegmentValue::Boolean(true).as_string(), Err(SegmentError::ExpectedString)));
}

fn binding(parameter: &str, ptype: UrlSegmentType, text: &str) -> RouteBinding {
    RouteBinding { parameter: parameter.to_string(), ptype, value: UrlSegmentValue::parse(ptype, text).unwrap() }
}

#[test]
fn wallet_request_reads_path_and_mnemonic() {
    let path_text = tagged_base64::to_string(&TaggedBase64::new("PATH", b"/w").unwrap());
    let path = binding(":path", UrlSegmentType::TaggedBase64, &path_text);
    let mnemonic = binding(":mnemonic", UrlSegmentType::Literal, "seed words");
    assert_eq!(wallet_request(Some(&path), &mnemonic).unwrap(), (Some("/w".to_string()), "seed words".to_string()));
    assert_eq!(wallet_request(None, &mnemonic).unwrap(), (None, "seed words".to_string()));
    let not_a_path = binding(":path", UrlSegmentType::Literal, "/w");
    assert_eq!(wallet_request(Some(&not_a_path), &mnemonic), Err(WalletRequestError::BadSegment(SegmentError::ExpectedIdentifier)));
    let number = binding(":mnemonic", UrlSegmentType::Integer, "12");
    assert_eq!(wallet_request(None, &number), Err(WalletRequestError::BadSegment(SegmentError::ExpectedString)));
}

#[test]
fn closewallet_needs_an_open_wallet() {
    let mut w: Option<u32> = Some(3);
    assert_eq!(closewallet(&mut w), Ok(()));
    assert_eq!(w, None);
    assert_eq!(closewallet(&mut w), Err(WalletRequestError::NoWalletOpen));
}
