//! The wallet's web API: its route keys and the typed values of URL
//! segments.
use crate::routes::str_is;
use vstd::utf8::{decode_utf8, valid_utf8};
use vstd::prelude::*;

verus! {

/// The routes of the wallet's web API.
#[allow(non_camel_case_types)]
#[derive(Clone, Copy, Debug, PartialEq, Eq, Structural)]
pub enum ApiRouteKey {
    closewallet,
    deposit,
    freeze,
    getaddress,
    getbalance,
    getinfo,
    importkey,
    mint,
    newasset,
    newkey,
    newwallet,
    openwallet,
    send,
    trace,
    transaction,
    unfreeze,
    unwrap,
    wrap,
}

impl ApiRouteKey {
    pub open spec fn name(self) -> Seq<char> {
        match self {
            ApiRouteKey::closewallet => "closewallet"@,
            ApiRouteKey::deposit => "deposit"@,
            ApiRouteKey::freeze => "freeze"@,
            ApiRouteKey::getaddress => "getaddress"@,
            ApiRouteKey::getbalance => "getbalance"@,
            ApiRouteKey::getinfo => "getinfo"@,
            ApiRouteKey::importkey => "importkey"@,
            ApiRouteKey::mint => "mint"@,
            ApiRouteKey::newasset => "newasset"@,
            ApiRouteKey::newkey => "newkey"@,
            ApiRouteKey::newwallet => "newwallet"@,
            ApiRouteKey::openwallet => "openwallet"@,
            ApiRouteKey::send => "send"@,
            ApiRouteKey::trace => "trace"@,
            ApiRouteKey::transaction => "transaction"@,
            ApiRouteKey::unfreeze => "unfreeze"@,
            ApiRouteKey::unwrap => "unwrap"@,
            ApiRouteKey::wrap => "wrap"@,
        }
    }

    pub fn as_str(&self) -> (r: &'static str)
        ensures
            r@ == self.name(),
    {
        match self {
            ApiRouteKey::closewallet => "closewallet",
            ApiRouteKey::deposit => "deposit",
            ApiRouteKey::freeze => "freeze",
            ApiRouteKey::getaddress => "getaddress",
            ApiRouteKey::getbalance => "getbalance",
            ApiRouteKey::getinfo => "getinfo",
            ApiRouteKey::importkey => "importkey",
            ApiRouteKey::mint => "mint",
            ApiRouteKey::newasset => "newasset",
            ApiRouteKey::newkey => "newkey",
            ApiRouteKey::newwallet => "newwallet",
            ApiRouteKey::openwallet => "openwallet",
            ApiRouteKey::send => "send",
            ApiRouteKey::trace => "trace",
            ApiRouteKey::transaction => "transaction",
            ApiRouteKey::unfreeze => "unfreeze",
            ApiRouteKey::unwrap => "unwrap",
            ApiRouteKey::wrap => "wrap",
        }
    }

    /// The key named `s`, if any.
    pub fn from_str(s: &str) -> (r: Option<ApiRouteKey>)
        ensures
            r matches Some(k) ==> s@ == k.name(),
            r is None ==> forall|k: ApiRouteKey| s@ != #[trigger] k.name(),
    {
        if str_is(s, "closewallet") {
            Some(ApiRouteKey::closewallet)
        } else if str_is(s, "deposit") {
            Some(ApiRouteKey::deposit)
        } else if str_is(s, "freeze") {
            Some(ApiRouteKey::freeze)
        } else if str_is(s, "getaddress") {
            Some(ApiRouteKey::getaddress)
        } else if str_is(s, "getbalance") {
            Some(ApiRouteKey::getbalance)
        } else if str_is(s, "getinfo") {
            Some(ApiRouteKey::getinfo)
        } else if str_is(s, "importkey") {
            Some(ApiRouteKey::importkey)
        } else if str_is(s, "mint") {
            Some(ApiRouteKey::mint)
        } else if str_is(s, "newasset") {
            Some(ApiRouteKey::newasset)
        } else if str_is(s, "newkey") {
            Some(ApiRouteKey::newkey)
        } else if str_is(s, "newwallet") {
            Some(ApiRouteKey::newwallet)
        } else if str_is(s, "openwallet") {
            Some(ApiRouteKey::openwallet)
        } else if str_is(s, "send") {
            Some(ApiRouteKey::send)
        } else if str_is(s, "trace") {
            Some(ApiRouteKey::trace)
        } else if str_is(s, "transaction") {
            Some(ApiRouteKey::transaction)
        } else if str_is(s, "unfreeze") {
            Some(ApiRouteKey::unfreeze)
        } else if str_is(s, "unwrap") {
            Some(ApiRouteKey::unwrap)
        } else if str_is(s, "wrap") {
            Some(ApiRouteKey::wrap)
        } else {
            assert forall|k: ApiRouteKey| s@ != #[trigger] k.name() by {
                match k {
                    ApiRouteKey::closewallet => {},
                    ApiRouteKey::deposit => {},
                    ApiRouteKey::freeze => {},
                    ApiRouteKey::getaddress => {},
                    ApiRouteKey::getbalance => {},
                    ApiRouteKey::getinfo => {},
                    ApiRouteKey::importkey => {},
                    ApiRouteKey::mint => {},
                    ApiRouteKey::newasset => {},
                    ApiRouteKey::newkey => {},
                    ApiRouteKey::newwallet => {},
                    ApiRouteKey::openwallet => {},
                    ApiRouteKey::send => {},
                    ApiRouteKey::trace => {},
                    ApiRouteKey::transaction => {},
                    ApiRouteKey::unfreeze => {},
                    ApiRouteKey::unwrap => {},
                    ApiRouteKey::wrap => {},
                }
            }
            None
        }
    }

    /// Every key, in declaration order.
    pub fn all() -> (r: Vec<ApiRouteKey>)
        ensures
            r@.len() == 18,
            forall|k: ApiRouteKey| r@.contains(k),
    {
        let mut v: Vec<ApiRouteKey> = Vec::new();
        v.push(ApiRouteKey::closewallet);
        v.push(ApiRouteKey::deposit);
        v.push(ApiRouteKey::freeze);
        v.push(ApiRouteKey::getaddress);
        v.push(ApiRouteKey::getbalance);
        v.push(ApiRouteKey::getinfo);
        v.push(ApiRouteKey::importkey);
        v.push(ApiRouteKey::mint);
        v.push(ApiRouteKey::newasset);
        v.push(ApiRouteKey::newkey);
        v.push(ApiRouteKey::newwallet);
        v.push(ApiRouteKey::openwallet);
        v.push(ApiRouteKey::send);
        v.push(ApiRouteKey::trace);
        v.push(ApiRouteKey::transaction);
        v.push(ApiRouteKey::unfreeze);
        v.push(ApiRouteKey::unwrap);
        v.push(ApiRouteKey::wrap);
        let ghost s = seq![
            ApiRouteKey::closewallet,
            ApiRouteKey::deposit,
            ApiRouteKey::freeze,
            ApiRouteKey::getaddress,
            ApiRouteKey::getbalance,
            ApiRouteKey::getinfo,
            ApiRouteKey::importkey,
            ApiRouteKey::mint,
            ApiRouteKey::newasset,
            ApiRouteKey::newkey,
            ApiRouteKey::newwallet,
            ApiRouteKey::openwallet,
            ApiRouteKey::send,
            ApiRouteKey::trace,
            ApiRouteKey::transaction,
            ApiRouteKey::unfreeze,
            ApiRouteKey::unwrap,
            ApiRouteKey::wrap
        ];
        assert(v@ =~= s);
        assert forall|k: ApiRouteKey| v@.contains(k) by {
            let i: int = match k {
                ApiRouteKey::closewallet => 0,
                ApiRouteKey::deposit => 1,
                ApiRouteKey::freeze => 2,
                ApiRouteKey::getaddress => 3,
                ApiRouteKey::getbalance => 4,
                ApiRouteKey::getinfo => 5,
                ApiRouteKey::importkey => 6,
                ApiRouteKey::mint => 7,
                ApiRouteKey::newasset => 8,
                ApiRouteKey::newkey => 9,
                ApiRouteKey::newwallet => 10,
                ApiRouteKey::openwallet => 11,
                ApiRouteKey::send => 12,
                ApiRouteKey::trace => 13,
                ApiRouteKey::transaction => 14,
                ApiRouteKey::unfreeze => 15,
                ApiRouteKey::unwrap => 16,
                ApiRouteKey::wrap => 17,
            };
            assert(v@[i] == k);
        }
        v
    }
}

/// How a URL segment is to be read.
#[derive(Clone, Copy, Debug, PartialEq, Eq, Structural)]
pub enum UrlSegmentType {
    Boolean,
    Hexadecimal,
    Integer,
    TaggedBase64,
    Literal,
}

impl UrlSegmentType {
    pub open spec fn name(self) -> Seq<char> {
        match self {
            UrlSegmentType::Boolean => "Boolean"@,
            UrlSegmentType::Hexadecimal => "Hexadecimal"@,
            UrlSegmentType::Integer => "Integer"@,
            UrlSegmentType::TaggedBase64 => "TaggedBase64"@,
            UrlSegmentType::Literal => "Literal"@,
        }
    }

    /// The type named `s`, if any.
    pub fn from_str(s: &str) -> (r: Option<UrlSegmentType>)
        ensures
            r matches Some(t) ==> s@ == t.name(),
            r is None ==> forall|t: UrlSegmentType| s@ != #[trigger] t.name(),
    {
        if str_is(s, "Boolean") {
            Some(UrlSegmentType::Boolean)
        } else if str_is(s, "Hexadecimal") {
            Some(UrlSegmentType::Hexadecimal)
        } else if str_is(s, "Integer") {
            Some(UrlSegmentType::Integer)
        } else if str_is(s, "TaggedBase64") {
            Some(UrlSegmentType::TaggedBase64)
        } else if str_is(s, "Literal") {
            Some(UrlSegmentType::Literal)
        } else {
            assert forall|t: UrlSegmentType| s@ != #[trigger] t.name() by {
                match t {
                    UrlSegmentType::Boolean => {},
                    UrlSegmentType::Hexadecimal => {},
                    UrlSegmentType::Integer => {},
                    UrlSegmentType::TaggedBase64 => {},
                    UrlSegmentType::Literal => {},
                }
            }
            None
        }
    }
}

/// The value of a digit character, or 36 for a character that is a digit
/// in no radix.
pub open spec fn digit_value(c: char) -> nat {
    let u = c as u32;
    if 48 <= u <= 57 {
        (u - 48) as nat
    } else if 97 <= u <= 122 {
        (u - 97 + 10) as nat
    } else if 65 <= u <= 90 {
        (u - 65 + 10) as nat
    } else {
        36
    }
}

/// The number that the digits `s` write in `radix`.
pub open spec fn digits_value(s: Seq<char>, radix: nat) -> nat
    decreases s.len(),
{
    if s.len() == 0 {
        0
    } else {
        digits_value(s.drop_last(), radix) * radix + digit_value(s.last())
    }
}

/// An optional `+`, then one or more digits of `radix` whose value fits in
/// a `u128`.
pub open spec fn parse_u128_radix(s: Seq<char>, radix: nat) -> Option<u128> {
    let d = if s.len() > 0 && s[0] == '+' {
        s.drop_first()
    } else {
        s
    };
    if d.len() > 0 && (forall|i: int| 0 <= i < d.len() ==> digit_value(#[trigger] d[i]) < radix)
        && digits_value(d, radix) <= u128::MAX {
        Some(digits_value(d, radix) as u128)
    } else {
        None
    }
}

/// Relies on `u128::from_str_radix`: an optional `+` then at least one
/// digit of the radix (either case for letters), with a value that fits;
/// anything else fails.
#[verifier::external_body]
fn u128_from_str_radix(s: &str, radix: u32) -> (r: Option<u128>)
    requires
        2 <= radix <= 36,
    ensures
        r == parse_u128_radix(s@, radix as nat),
{
    u128::from_str_radix(s, radix).ok()
}

/// Exactly `true` or `false`, as `bool`'s `FromStr` reads them.
fn parse_bool(s: &str) -> (r: Option<bool>)
    ensures
        r == if s@ == "true"@ {
            Some(true)
        } else if s@ == "false"@ {
            Some(false)
        } else {
            None
        },
{
    if str_is(s, "true") {
        Some(true)
    } else if str_is(s, "false") {
        Some(false)
    } else {
        None
    }
}

/// The tag and the bytes of a `TAG~base64` string, when it is well formed
/// and its checksum matches.
pub uninterp spec fn tagged_base64_parse(s: Seq<char>) -> Option<(Seq<char>, Seq<u8>)>;

/// Relies on `tagged_base64::TaggedBase64::parse` and the `tag` and `value`
/// getters of its result.
#[verifier::external_body]
fn parse_tagged_base64(s: &str) -> (r: Option<(String, Vec<u8>)>)
    ensures
        match r {
            Some((t, v)) => tagged_base64_parse(s@) == Some((t@, v@)),
            None => tagged_base64_parse(s@) is None,
        },
{
    match tagged_base64::TaggedBase64::parse(s) {
        Ok(tb) => Some((tb.tag(), tb.value())),
        Err(_) => None,
    }
}

/// The characters that the bytes encode in UTF-8, if they are valid UTF-8.
pub open spec fn utf8_text(b: Seq<u8>) -> Option<Seq<char>> {
    if valid_utf8(b) {
        Some(decode_utf8(b))
    } else {
        None
    }
}

/// Relies on `String::from_utf8`: the text of valid UTF-8 bytes.
#[verifier::external_body]
fn utf8_string(bytes: Vec<u8>) -> (r: Option<String>)
    ensures
        match r {
            Some(s) => valid_utf8(bytes@) && s@ == decode_utf8(bytes@),
            None => !valid_utf8(bytes@),
        },
{
    String::from_utf8(bytes).ok()
}

/// A tagged identifier: a tag and bytes.
#[derive(Clone, Debug)]
pub struct TaggedIdent {
    pub tag: String,
    pub value: Vec<u8>,
}

/// The typed value of a URL segment.
#[derive(Clone, Debug)]
pub enum UrlSegmentValue {
    Boolean(bool),
    Hexadecimal(u128),
    Integer(u128),
    Identifier(TaggedIdent),
    Unparsed(String),
    ParseFailed(UrlSegmentType, String),
    Literal(String),
}

/// Why a segment's value is not of the kind an endpoint needs.
#[derive(Clone, Copy, Debug, PartialEq, Eq, Structural)]
pub enum SegmentError {
    ExpectedBoolean,
    ExpectedIndex,
    ExpectedIdentifier,
    ExpectedPathTag,
    InvalidUtf8,
    ExpectedString,
}

/// `v` is what reading `value` as `ptype` gives.
pub open spec fn parsed_as(ptype: UrlSegmentType, value: Seq<char>, r: Option<UrlSegmentValue>) -> bool {
    match ptype {
        UrlSegmentType::Boolean => r == (if value == "true"@ {
            Some(UrlSegmentValue::Boolean(true))
        } else if value == "false"@ {
            Some(UrlSegmentValue::Boolean(false))
        } else {
            None
        }),
        UrlSegmentType::Hexadecimal => match parse_u128_radix(value, 16) {
            Some(x) => r == Some(UrlSegmentValue::Hexadecimal(x)),
            None => r is None,
        },
        UrlSegmentType::Integer => match parse_u128_radix(value, 10) {
            Some(x) => r == Some(UrlSegmentValue::Integer(x)),
            None => r is None,
        },
        UrlSegmentType::TaggedBase64 => match tagged_base64_parse(value) {
            Some((t, b)) => r matches Some(UrlSegmentValue::Identifier(id)) && id.tag@ == t
                && id.value@ == b,
            None => r is None,
        },
        UrlSegmentType::Literal => r matches Some(UrlSegmentValue::Literal(s)) && s@ == value,
    }
}

impl UrlSegmentValue {
    /// Reads `value` as a segment of type `ptype`.
    pub fn parse(ptype: UrlSegmentType, value: &str) -> (r: Option<UrlSegmentValue>)
        ensures
            parsed_as(ptype, value@, r),
    {
        match ptype {
            UrlSegmentType::Boolean => match parse_bool(value) {
                Some(b) => Some(UrlSegmentValue::Boolean(b)),
                None => None,
            },
            UrlSegmentType::Hexadecimal => match u128_from_str_radix(value, 16) {
                Some(x) => Some(UrlSegmentValue::Hexadecimal(x)),
                None => None,
            },
            UrlSegmentType::Integer => match u128_from_str_radix(value, 10) {
                Some(x) => Some(UrlSegmentValue::Integer(x)),
                None => None,
            },
            UrlSegmentType::TaggedBase64 => match parse_tagged_base64(value) {
                Some((tag, v)) => Some(UrlSegmentValue::Identifier(TaggedIdent { tag, value: v })),
                None => None,
            },
            UrlSegmentType::Literal => Some(UrlSegmentValue::Literal(value.to_owned())),
        }
    }

    pub fn as_boolean(&self) -> (r: Result<bool, SegmentError>)
        ensures
            match self {
                UrlSegmentValue::Boolean(b) => r == Ok::<bool, SegmentError>(*b),
                _ => r == Err::<bool, SegmentError>(SegmentError::ExpectedBoolean),
            },
    {
        match self {
            UrlSegmentValue::Boolean(b) => Ok(*b),
            _ => Err(SegmentError::ExpectedBoolean),
        }
    }

    /// An integer that fits in a `usize`.
    pub fn as_index(&self) -> (r: Result<usize, SegmentError>)
        ensures
            match self {
                UrlSegmentValue::Integer(ix) => if *ix <= usize::MAX {
                    r == Ok::<usize, SegmentError>(*ix as usize)
                } else {
                    r == Err::<usize, SegmentError>(SegmentError::ExpectedIndex)
                },
                _ => r == Err::<usize, SegmentError>(SegmentError::ExpectedIndex),
            },
    {
        match self {
            UrlSegmentValue::Integer(ix) => if *ix <= usize::MAX as u128 {
                Ok(*ix as usize)
            } else {
                Err(SegmentError::ExpectedIndex)
            },
            _ => Err(SegmentError::ExpectedIndex),
        }
    }

    pub fn as_identifier(&self) -> (r: Result<TaggedIdent, SegmentError>)
        ensures
            match self {
                UrlSegmentValue::Identifier(id) => r matches Ok(x) && x.tag@ == id.tag@
                    && x.value@ == id.value@,
                _ => r == Err::<TaggedIdent, SegmentError>(SegmentError::ExpectedIdentifier),
            },
    {
        match self {
            UrlSegmentValue::Identifier(id) => Ok(
                TaggedIdent { tag: id.tag.clone(), value: crate::ledger::copy_bytes(&id.value) },
            ),
            _ => Err(SegmentError::ExpectedIdentifier),
        }
    }

    /// A path: an identifier tagged `PATH` whose bytes are UTF-8 text.
    pub fn as_path(&self) -> (r: Result<String, SegmentError>)
        ensures
            match self {
                UrlSegmentValue::Identifier(id) => if id.tag@ != "PATH"@ {
                    r == Err::<String, SegmentError>(SegmentError::ExpectedPathTag)
                } else {
                    match utf8_text(id.value@) {
                        Some(t) => r matches Ok(s) && s@ == t,
                        None => r == Err::<String, SegmentError>(SegmentError::InvalidUtf8),
                    }
                },
                _ => r == Err::<String, SegmentError>(SegmentError::ExpectedIdentifier),
            },
    {
        let id = self.as_identifier()?;
        if !str_is(id.tag.as_str(), "PATH") {
            return Err(SegmentError::ExpectedPathTag);
        }
        match utf8_string(id.value) {
            Some(s) => Ok(s),
            None => Err(SegmentError::InvalidUtf8),
        }
    }

    /// A literal, or the UTF-8 text of an identifier's bytes.
    pub fn as_string(&self) -> (r: Result<String, SegmentError>)
        ensures
            match self {
                UrlSegmentValue::Literal(s) => r matches Ok(x) && x@ == s@,
                UrlSegmentValue::Identifier(id) => match utf8_text(id.value@) {
                    Some(t) => r matches Ok(s) && s@ == t,
                    None => r == Err::<String, SegmentError>(SegmentError::InvalidUtf8),
                },
                _ => r == Err::<String, SegmentError>(SegmentError::ExpectedString),
            },
    {
        match self {
            UrlSegmentValue::Literal(s) => Ok(s.clone()),
            UrlSegmentValue::Identifier(id) => match utf8_string(crate::ledger::copy_bytes(&id.value)) {
                Some(s) => Ok(s),
                None => Err(SegmentError::InvalidUtf8),
            },
            _ => Err(SegmentError::ExpectedString),
        }
    }
}

/// A placeholder of a route pattern bound to the value read from the URL.
#[derive(Clone, Debug)]
pub struct RouteBinding {
    /// The placeholder, e.g. `:id`.
    pub parameter: String,
    /// How the value was read.
    pub ptype: UrlSegmentType,
    /// The value.
    pub value: UrlSegmentValue,
}

/// Why a wallet endpoint refused a request.
#[derive(Clone, Copy, Debug, PartialEq, Eq, Structural)]
pub enum WalletRequestError {
    /// A binding does not hold the kind of value the endpoint needs.
    BadSegment(SegmentError),
    /// The endpoint needs an open wallet.
    NoWalletOpen,
}

/// The storage path (when `:path` is bound) and the mnemonic that opening
/// or creating a wallet needs.
pub fn wallet_request(path: Option<&RouteBinding>, mnemonic: &RouteBinding) -> (r: Result<
    (Option<String>, String),
    WalletRequestError,
>)
    ensures
        ({
            let p_ok: bool = match path {
                Some(b) => match b.value {
                    UrlSegmentValue::Identifier(id) => id.tag@ == "PATH"@ && utf8_text(id.value@) is Some,
                    _ => false,
                },
                None => true,
            };
            let m_ok: bool = match mnemonic.value {
                UrlSegmentValue::Literal(_) => true,
                UrlSegmentValue::Identifier(id) => utf8_text(id.value@) is Some,
                _ => false,
            };
            &&& r is Ok <==> p_ok && m_ok
            &&& r matches Ok((p, m)) ==> {
                &&& (path is None <==> p is None)
                &&& (p matches Some(ps) ==> (path matches Some(b) && b.value matches UrlSegmentValue::Identifier(id)
                    && utf8_text(id.value@) == Some(ps@)))
                &&& match mnemonic.value {
                    UrlSegmentValue::Literal(s) => m@ == s@,
                    UrlSegmentValue::Identifier(id) => utf8_text(id.value@) == Some(m@),
                    _ => false,
                }
            }
        }),
{
    let p = match path {
        Some(b) => match b.value.as_path() {
            Ok(x) => Some(x),
            Err(e) => {
                return Err(WalletRequestError::BadSegment(e));
            },
        },
        None => None,
    };
    match mnemonic.value.as_string() {
        Ok(m) => Ok((p, m)),
        Err(e) => Err(WalletRequestError::BadSegment(e)),
    }
}

/// Closes the open wallet; there must be one.
pub fn closewallet<W>(wallet: &mut Option<W>) -> (r: Result<(), WalletRequestError>)
    ensures
        r is Ok <==> (*old(wallet)) is Some,
        r is Ok ==> (*final(wallet)) is None,
        r is Err ==> r == Err::<(), WalletRequestError>(WalletRequestError::NoWalletOpen) && *final(wallet)
            == *old(wallet),
{
    if wallet.is_none() {
        return Err(WalletRequestError::NoWalletOpen);
    }
    *wallet = None;
    Ok(())
}

} // verus!
