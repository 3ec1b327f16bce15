//! The identity codec and the response decode cascade for token registries
//! of unknown schema.
//!
//! The codec turns one identity into every candidate wire form a registry
//! might accept, in a fixed order.  The decoder tries each known response
//! layout in a fixed priority order and yields a count or a typed failure.

use vstd::prelude::*;

use crate::crypto;
use crate::ids::IdentityRef;
use crate::util;
use crate::wire;

verus! {

/// A derived account address: the 32-byte checksummed value that stands
/// for an identity in address-keyed registries.  The first four bytes are
/// the big-endian CRC-32 of the 28-byte digest that follows.
#[derive(Debug)]
pub struct AccountIdentifier {
    pub hash: Vec<u8>,
}

/// The domain-separation tag that opens every address derivation preimage.
pub open spec fn account_domain_tag() -> Seq<u8> {
    seq![0x0au8, 0x61, 0x63, 0x63, 0x6f, 0x75, 0x6e, 0x74, 0x2d, 0x69, 0x64]
}

/// The all-zero 32-byte default subaccount.
pub open spec fn zero_subaccount() -> Seq<u8> {
    Seq::new(32, |i: int| 0u8)
}

/// The preimage hashed to derive an address: the domain tag, the raw
/// identity bytes behind a one-byte length prefix, then the subaccount.
pub open spec fn account_seed(raw: Seq<u8>, sub: Seq<u8>) -> Seq<u8> {
    account_domain_tag() + seq![raw.len() as u8] + raw + sub
}

/// The derived address for an identity and subaccount: the digest of the
/// seed, prefixed with its own big-endian CRC-32 checksum.
pub open spec fn account_id_of(raw: Seq<u8>, sub: Seq<u8>) -> Seq<u8> {
    let h = crypto::sha224_of(account_seed(raw, sub));
    crypto::u32_be_bytes(crypto::crc32_of(h)) + h
}

/// Builds the byte form of [`account_domain_tag`].
fn make_account_domain_tag() -> (r: Vec<u8>)
    ensures
        r@ =~= account_domain_tag(),
{
    let mut v: Vec<u8> = Vec::new();
    v.push(0x0a);
    v.push(0x61);
    v.push(0x63);
    v.push(0x63);
    v.push(0x6f);
    v.push(0x75);
    v.push(0x6e);
    v.push(0x74);
    v.push(0x2d);
    v.push(0x69);
    v.push(0x64);
    assert(v@ =~= account_domain_tag());
    v
}

/// Derives the checksummed address for an identity: the digest of the
/// domain tag, the length-prefixed identity bytes, and the subaccount
/// (all zeroes when none is given), behind its four checksum bytes.
pub fn principal_to_account_id(identity: &IdentityRef, subaccount: Option<Vec<u8>>) -> (r: Vec<
    u8,
>)
    requires
        identity.raw@.len() <= 255,
    ensures
        r@ == account_id_of(
            identity.raw@,
            match subaccount {
                Some(s) => s@,
                None => zero_subaccount(),
            },
        ),
        r@.len() == 32,
{
    let ghost sub_spec: Seq<u8> = if subaccount is Some {
        subaccount->Some_0@
    } else {
        zero_subaccount()
    };
    let mut seed = make_account_domain_tag();
    seed.push(identity.raw.len() as u8);
    assert(seed@ =~= account_domain_tag() + seq![identity.raw@.len() as u8]);
    let mut i: usize = 0;
    let n = identity.raw.len();
    while i < n
        invariant
            n == identity.raw@.len(),
            0 <= i <= n,
            seed@ =~= account_domain_tag() + seq![identity.raw@.len() as u8]
                + identity.raw@.take(i as int),
        decreases n - i,
    {
        seed.push(identity.raw[i]);
        assert(seed@ =~= account_domain_tag() + seq![identity.raw@.len() as u8]
            + identity.raw@.take(i + 1));
        i = i + 1;
    }
    assert(identity.raw@.take(n as int) =~= identity.raw@);
    match subaccount {
        Some(s) => {
            let mut j: usize = 0;
            let m = s.len();
            while j < m
                invariant
                    m == s@.len(),
                    0 <= j <= m,
                    seed@ =~= account_domain_tag() + seq![identity.raw@.len() as u8]
                        + identity.raw@ + s@.take(j as int),
                decreases m - j,
            {
                seed.push(s[j]);
                assert(seed@ =~= account_domain_tag() + seq![identity.raw@.len() as u8]
                    + identity.raw@ + s@.take(j + 1));
                j = j + 1;
            }
            assert(s@.take(m as int) =~= s@);
            assert(seed@ =~= account_seed(identity.raw@, sub_spec));
        },
        None => {
            let mut j: usize = 0;
            while j < 32
                invariant
                    0 <= j <= 32,
                    seed@ =~= account_domain_tag() + seq![identity.raw@.len() as u8]
                        + identity.raw@ + zero_subaccount().take(j as int),
                decreases 32 - j,
            {
                seed.push(0x00);
                assert(seed@ =~= account_domain_tag() + seq![identity.raw@.len() as u8]
                    + identity.raw@ + zero_subaccount().take(j + 1));
                j = j + 1;
            }
            assert(zero_subaccount().take(32) =~= zero_subaccount());
            assert(seed@ =~= account_seed(identity.raw@, sub_spec));
        },
    }
    let digest = crypto::sha224_digest(&seed);
    let checksum = crypto::crc32(&digest);
    let mut out: Vec<u8> = Vec::new();
    crypto::push_u32_be(&mut out, checksum);
    out.extend_from_slice(digest.as_slice());
    assert(out@ =~= account_id_of(identity.raw@, sub_spec));
    out
}

/// Wraps an identity's default derived address in the record shape that
/// address-keyed registries expect.
pub fn account_identifier_for(identity: &IdentityRef) -> (r: AccountIdentifier)
    requires
        identity.raw@.len() <= 255,
    ensures
        r.hash@ == account_id_of(identity.raw@, zero_subaccount()),
        r.hash@.len() == 32,
{
    AccountIdentifier { hash: principal_to_account_id(identity, None) }
}

/// A wire-level user reference: either a textual address or the raw
/// identity bytes.
#[derive(Debug)]
pub enum User {
    /// The textual (hex) form of a derived address.
    Address(String),
    /// The raw bytes of an identity.
    Principal(Vec<u8>),
}

/// Both user forms for an identity, raw form first, then the hex form of
/// its default derived address.
pub fn principal_to_user_variants(identity: &IdentityRef) -> (r: Vec<User>)
    requires
        identity.raw@.len() <= 255,
    ensures
        r@.len() == 2,
        r@[0] matches User::Principal(raw) && raw@ == identity.raw@,
        r@[1] matches User::Address(a) && a@ == crypto::hex_chars_of(
            account_id_of(identity.raw@, zero_subaccount()),
        ),
{
    let mut out: Vec<User> = Vec::new();
    out.push(User::Principal(identity.raw.clone()));
    let account = principal_to_account_id(identity, None);
    out.push(User::Address(crypto::hex_encode(&account)));
    out
}

/// One candidate wire form of an identity: a diagnostic label and the
/// payload bytes to send.
#[derive(Debug)]
pub struct EncodingCandidate {
    pub label: String,
    pub payload: Vec<u8>,
}

/// The diagnostic label of the candidate at position `k` in the fixed
/// candidate order.
pub open spec fn candidate_label(k: int) -> Seq<char> {
    if k == 0 {
        "principal_text"@
    } else if k == 1 {
        "principal_direct"@
    } else if k == 2 {
        "account_id"@
    } else if k == 3 {
        "account_id_hex"@
    } else if k == 4 {
        "user_variant_0"@
    } else {
        "user_variant_1"@
    }
}

/// The payload of the candidate at position `k` in the fixed candidate
/// order for an identity with raw bytes `raw` and text bytes `text`.
pub open spec fn candidate_payload(raw: Seq<u8>, text: Seq<u8>, k: int) -> Seq<u8> {
    let account = account_id_of(raw, zero_subaccount());
    if k == 0 {
        wire::text_arg(text)
    } else if k == 1 {
        wire::principal_arg(raw)
    } else if k == 2 {
        wire::account_record_arg(account)
    } else if k == 3 {
        wire::text_arg(crypto::hex_bytes_of(account))
    } else if k == 4 {
        wire::user_principal_arg(raw)
    } else {
        wire::user_address_arg(crypto::hex_bytes_of(account))
    }
}

/// The fixed, ordered list of candidate encodings for one identity: its
/// text form, its raw form, the derived address record, the hex text of
/// that address, and the two tagged user forms.  Deterministic, six
/// entries, never fails.
pub fn create_tokens_query_encodings(identity: &IdentityRef) -> (r: Vec<EncodingCandidate>)
    requires
        identity.raw@.len() <= 255,
    ensures
        r@.len() == 6,
        forall|k: int|
            0 <= k < 6 ==> (#[trigger] r@[k]).payload@ == candidate_payload(
                identity.raw@,
                vstd::utf8::encode_utf8(identity.text@),
                k,
            ),
        forall|k: int| 0 <= k < 6 ==> (#[trigger] r@[k]).label@ == candidate_label(k),
{
    let text_bytes = text_utf8_bytes(&identity.text);
    let account = principal_to_account_id(identity, None);
    let account_hex = crypto::hex_encode_bytes(&account);
    let mut out: Vec<EncodingCandidate> = Vec::new();
    out.push(
        EncodingCandidate {
            label: String::from_str("principal_text"),
            payload: wire::enc_text_arg(&text_bytes),
        },
    );
    out.push(
        EncodingCandidate {
            label: String::from_str("principal_direct"),
            payload: wire::enc_principal_arg(&identity.raw),
        },
    );
    out.push(
        EncodingCandidate {
            label: String::from_str("account_id"),
            payload: wire::enc_account_record_arg(&account),
        },
    );
    out.push(
        EncodingCandidate {
            label: String::from_str("account_id_hex"),
            payload: wire::enc_text_arg(&account_hex),
        },
    );
    out.push(
        EncodingCandidate {
            label: String::from_str("user_variant_0"),
            payload: wire::enc_user_principal_arg(&identity.raw),
        },
    );
    out.push(
        EncodingCandidate {
            label: String::from_str("user_variant_1"),
            payload: wire::enc_user_address_arg(&account_hex),
        },
    );
    out
}

/// The UTF-8 bytes of a string.
pub fn text_utf8_bytes(s: &String) -> (r: Vec<u8>)
    ensures
        r@ == vstd::utf8::encode_utf8(s@),
{
    let st = s.as_str();
    st.as_bytes_vec()
}


/// A decoded token-list reply in its surface form.
#[derive(Debug)]
pub enum TokensResult {
    /// The success arm: the token indices held.
    Listed(Vec<u64>),
    /// The error arm.
    Rejected(TokensError),
}

/// The error payload of a token-list reply.
#[derive(Debug)]
pub struct TokensError {
    pub invalid_token: Option<String>,
    pub other: Option<String>,
}

/// A decoded numeric balance reply whose amount fits the count range.
#[derive(Debug)]
pub enum Balance {
    /// The success arm: the balance held.
    Amount(u64),
    /// The error arm.
    Rejected(CommonError),
}

/// The common error variant carried by numeric balance replies.
#[derive(Debug)]
pub enum CommonError {
    InvalidToken(String),
    Other(String),
}

/// Why a response's bytes yielded no count.
#[derive(Debug)]
pub enum DecodeFailure {
    /// A tagged error reply carried this catch-all message.
    ErrorResponse(String),
    /// A tagged error reply named an invalid token.
    InvalidToken(String),
    /// A tagged error reply carried no message at all.
    UnknownError,
    /// A numeric balance reply carried a value too large for a count.
    OutOfRange,
    /// No known layout matched the bytes.
    Unrecognized,
}

/// Ghost counterpart of [`DecodeFailure`].
pub enum DecodeFailureModel {
    ErrorResponse(Seq<char>),
    InvalidToken(Seq<char>),
    UnknownError,
    OutOfRange,
    Unrecognized,
}

pub open spec fn decode_failure_view(f: DecodeFailure) -> DecodeFailureModel {
    match f {
        DecodeFailure::ErrorResponse(s) => DecodeFailureModel::ErrorResponse(s@),
        DecodeFailure::InvalidToken(s) => DecodeFailureModel::InvalidToken(s@),
        DecodeFailure::UnknownError => DecodeFailureModel::UnknownError,
        DecodeFailure::OutOfRange => DecodeFailureModel::OutOfRange,
        DecodeFailure::Unrecognized => DecodeFailureModel::Unrecognized,
    }
}

pub open spec fn decode_result_view(r: Result<u64, DecodeFailure>) -> Result<
    u64,
    DecodeFailureModel,
> {
    match r {
        Ok(v) => Ok(v),
        Err(f) => Err(decode_failure_view(f)),
    }
}

/// The case-insensitive marker that reports an empty holding as an error.
pub open spec fn no_tokens_marker() -> Seq<u8> {
    seq![0x6eu8, 0x6f, 0x20, 0x74, 0x6f, 0x6b, 0x65, 0x6e, 0x73]
}

/// Builds the byte form of [`no_tokens_marker`].
fn make_no_tokens_marker() -> (r: Vec<u8>)
    ensures
        r@ =~= no_tokens_marker(),
{
    let mut v: Vec<u8> = Vec::new();
    v.push(0x6e);
    v.push(0x6f);
    v.push(0x20);
    v.push(0x74);
    v.push(0x6f);
    v.push(0x6b);
    v.push(0x65);
    v.push(0x6e);
    v.push(0x73);
    assert(v@ =~= no_tokens_marker());
    v
}

/// First cascade step: the tagged success/error token-list layout.  A
/// success arm yields the list length; an error arm checks the catch-all
/// message for the no-tokens marker (count zero), else surfaces the typed
/// failure.  A message that is not valid UTF-8 falls through.
#[verifier::opaque]
pub open spec fn step_tokens_result(s: Seq<u8>) -> Option<Result<u64, DecodeFailureModel>> {
    match wire::parse_tokens_result(s) {
        Some(wire::TokensReplyModel::Indices(v)) => Some(Ok(v.len() as u64)),
        Some(wire::TokensReplyModel::Problem { invalid_token, other }) => match other {
            Some(msg) => if util::contains_seq(util::ascii_lower(msg), no_tokens_marker()) {
                Some(Ok(0))
            } else if vstd::utf8::valid_utf8(msg) {
                Some(Err(DecodeFailureModel::ErrorResponse(vstd::utf8::decode_utf8(msg))))
            } else {
                None
            },
            None => match invalid_token {
                Some(tok) => if vstd::utf8::valid_utf8(tok) {
                    Some(Err(DecodeFailureModel::InvalidToken(vstd::utf8::decode_utf8(tok))))
                } else {
                    None
                },
                None => Some(Err(DecodeFailureModel::UnknownError)),
            },
        },
        None => None,
    }
}

/// Second cascade step: the bare list layout yields its length.
#[verifier::opaque]
pub open spec fn step_bare_list(s: Seq<u8>) -> Option<Result<u64, DecodeFailureModel>> {
    match wire::parse_bare_list(s) {
        Some(v) => Some(Ok(v.len() as u64)),
        None => None,
    }
}

/// Third cascade step: the tagged numeric balance layout yields its value
/// when it fits the count range, else a typed failure; its error arm does
/// not match.
#[verifier::opaque]
pub open spec fn step_balance(s: Seq<u8>) -> Option<Result<u64, DecodeFailureModel>> {
    match wire::parse_balance(s) {
        Some(wire::BalanceReplyModel::Amount(Some(v))) => Some(Ok(v)),
        Some(wire::BalanceReplyModel::Amount(None)) => Some(Err(DecodeFailureModel::OutOfRange)),
        _ => None,
    }
}

/// The whole decode cascade, in its fixed priority order.
pub open spec fn decode_count_spec(s: Seq<u8>) -> Result<u64, DecodeFailureModel> {
    if step_tokens_result(s) is Some {
        step_tokens_result(s)->Some_0
    } else if step_bare_list(s) is Some {
        step_bare_list(s)->Some_0
    } else if step_balance(s) is Some {
        step_balance(s)->Some_0
    } else {
        Err(DecodeFailureModel::Unrecognized)
    }
}

/// Runs the first cascade step on response bytes.
fn try_tokens_result(bytes: &Vec<u8>) -> (r: Option<Result<u64, DecodeFailure>>)
    ensures
        match r {
            Some(x) => step_tokens_result(bytes@) == Some(decode_result_view(x)),
            None => step_tokens_result(bytes@) is None,
        },
{
    proof {
        reveal(step_tokens_result);
    }
    match wire::parse_tokens_result_bytes(bytes) {
        Some(wire::RawTokensReply::Indices(v)) => Some(Ok(v.len() as u64)),
        Some(wire::RawTokensReply::Problem { invalid_token, other }) => match other {
            Some(msg) => {
                let lowered = util::to_ascii_lower(&msg);
                let marker = make_no_tokens_marker();
                if util::contains_bytes(&lowered, &marker) {
                    Some(Ok(0))
                } else {
                    match crate::ids::string_from_utf8(&msg) {
                        Some(s) => Some(Err(DecodeFailure::ErrorResponse(s))),
                        None => None,
                    }
                }
            },
            None => match invalid_token {
                Some(tok) => match crate::ids::string_from_utf8(&tok) {
                    Some(s) => Some(Err(DecodeFailure::InvalidToken(s))),
                    None => None,
                },
                None => Some(Err(DecodeFailure::UnknownError)),
            },
        },
        None => None,
    }
}

/// Runs the third cascade step on response bytes.
fn try_balance(bytes: &Vec<u8>) -> (r: Option<Result<u64, DecodeFailure>>)
    ensures
        match r {
            Some(x) => step_balance(bytes@) == Some(decode_result_view(x)),
            None => step_balance(bytes@) is None,
        },
{
    proof {
        reveal(step_balance);
    }
    match wire::parse_balance_bytes(bytes) {
        Some(wire::RawBalanceReply::Amount(Some(v))) => Some(Ok(v)),
        Some(wire::RawBalanceReply::Amount(None)) => Some(Err(DecodeFailure::OutOfRange)),
        _ => None,
    }
}

/// Decodes response bytes into a count by trying, in order: the tagged
/// success/error token list, the bare index list, then the tagged numeric
/// balance; yields a typed failure when no layout gives a count.
pub fn decode_tokens_response(bytes: &Vec<u8>) -> (r: Result<u64, DecodeFailure>)
    ensures
        decode_result_view(r) == decode_count_spec(bytes@),
{
    proof {
        reveal(step_bare_list);
    }
    match try_tokens_result(bytes) {
        Some(x) => x,
        None => {
            match wire::parse_bare_list_bytes(bytes) {
                Some(v) => Ok(v.len() as u64),
                None => {
                    match try_balance(bytes) {
                        Some(x) => x,
                        None => Err(DecodeFailure::Unrecognized),
                    }
                },
            }
        },
    }
}


impl DecodeFailure {
    /// The human-readable form of this failure.
    pub open spec fn describe_spec(self) -> Seq<char> {
        match self {
            DecodeFailure::ErrorResponse(m) => "Error response: "@ + m@,
            DecodeFailure::InvalidToken(t) => "Invalid token: "@ + t@,
            DecodeFailure::UnknownError => "Unknown error in TokensResult"@,
            DecodeFailure::OutOfRange => "Balance out of range for a count"@,
            DecodeFailure::Unrecognized => "Failed to decode response in any expected format"@,
        }
    }

    /// Renders the failure for diagnostics.
    pub fn describe(&self) -> (r: String)
        ensures
            r@ == self.describe_spec(),
    {
        match self {
            DecodeFailure::ErrorResponse(m) => {
                let mut s = String::from_str("Error response: ");
                s.append(m.as_str());
                s
            },
            DecodeFailure::InvalidToken(t) => {
                let mut s = String::from_str("Invalid token: ");
                s.append(t.as_str());
                s
            },
            DecodeFailure::UnknownError => String::from_str("Unknown error in TokensResult"),
            DecodeFailure::OutOfRange => String::from_str("Balance out of range for a count"),
            DecodeFailure::Unrecognized => String::from_str(
                "Failed to decode response in any expected format",
            ),
        }
    }
}

/// An audit record of one query attempt against one service.
#[derive(Debug)]
pub struct QueryLog {
    pub canister_id: String,
    pub encoding_type: String,
    pub success: bool,
    pub result: String,
}

/// The status mark that opens a rendered log line.
pub open spec fn status_mark(success: bool) -> Seq<char> {
    if success {
        "\u{2705}"@
    } else {
        "\u{274c}"@
    }
}

/// The rendered form of one audit record.
pub open spec fn query_log_line(l: QueryLog) -> Seq<char> {
    status_mark(l.success) + " Query to "@ + l.canister_id@ + ": ["@ + l.encoding_type@ + "] - "@
        + l.result@
}

/// Renders each audit record on its own line, in order.
pub fn format_query_logs(logs: Vec<QueryLog>) -> (r: Vec<String>)
    ensures
        r@.len() == logs@.len(),
        forall|i: int| 0 <= i < logs@.len() ==> (#[trigger] r@[i])@ == query_log_line(logs@[i]),
{
    let mut out: Vec<String> = Vec::new();
    let n = logs.len();
    let mut i: usize = 0;
    while i < n
        invariant
            n == logs@.len(),
            0 <= i <= n,
            out@.len() == i,
            forall|k: int| 0 <= k < i ==> (#[trigger] out@[k])@ == query_log_line(logs@[k]),
        decreases n - i,
    {
        let l = &logs[i];
        let mut line = if l.success {
            String::from_str("\u{2705}")
        } else {
            String::from_str("\u{274c}")
        };
        line.append(" Query to ");
        line.append(l.canister_id.as_str());
        line.append(": [");
        line.append(l.encoding_type.as_str());
        line.append("] - ");
        line.append(l.result.as_str());
        assert(line@ =~= query_log_line(logs@[i as int]));
        out.push(line);
        i = i + 1;
    }
    out
}


/// The diagnostic label of candidate `k`, as a string.
pub fn candidate_label_str(k: usize) -> (r: String)
    requires
        k < 6,
    ensures
        r@ == candidate_label(k as int),
{
    if k == 0 {
        String::from_str("principal_text")
    } else if k == 1 {
        String::from_str("principal_direct")
    } else if k == 2 {
        String::from_str("account_id")
    } else if k == 3 {
        String::from_str("account_id_hex")
    } else if k == 4 {
        String::from_str("user_variant_0")
    } else {
        String::from_str("user_variant_1")
    }
}


/// Reads response bytes as the tagged success/error token-list shape
/// alone, yielding its surface form; `None` when the bytes do not fit
/// that layout or a message is unreadable.
pub fn decode_as_tokens_result(bytes: &Vec<u8>) -> (r: Option<TokensResult>)
    ensures
        r is Some <==> (wire::parse_tokens_result(bytes@) matches Some(m) && match m {
            wire::TokensReplyModel::Indices(_) => true,
            wire::TokensReplyModel::Problem { invalid_token, other } => (invalid_token matches Some(t)
                ==> vstd::utf8::valid_utf8(t)) && (other matches Some(t) ==> vstd::utf8::valid_utf8(
                t,
            )),
        }),
        r matches Some(TokensResult::Listed(v)) ==> wire::parse_tokens_result(bytes@) == Some(
            wire::TokensReplyModel::Indices(v@),
        ),
        r matches Some(TokensResult::Rejected(e)) ==> (wire::parse_tokens_result(bytes@)
            matches Some(wire::TokensReplyModel::Problem { invalid_token, other }) && {
            &&& match (e.invalid_token, invalid_token) {
                (Some(s), Some(t)) => s@ == vstd::utf8::decode_utf8(t),
                (None, None) => true,
                _ => false,
            }
            &&& match (e.other, other) {
                (Some(s), Some(t)) => s@ == vstd::utf8::decode_utf8(t),
                (None, None) => true,
                _ => false,
            }
        }),
{
    match wire::parse_tokens_result_bytes(bytes) {
        Some(wire::RawTokensReply::Indices(v)) => Some(TokensResult::Listed(v)),
        Some(wire::RawTokensReply::Problem { invalid_token, other }) => {
            let it = match invalid_token {
                Some(t) => match crate::ids::string_from_utf8(&t) {
                    Some(s) => Some(s),
                    None => {
                        return None;
                    },
                },
                None => None,
            };
            let ot = match other {
                Some(t) => match crate::ids::string_from_utf8(&t) {
                    Some(s) => Some(s),
                    None => {
                        return None;
                    },
                },
                None => None,
            };
            Some(TokensResult::Rejected(TokensError { invalid_token: it, other: ot }))
        },
        None => None,
    }
}

/// Reads response bytes as the tagged numeric balance shape alone,
/// yielding its surface form; `None` when the bytes do not fit that
/// layout, the amount leaves the count range, or a message is unreadable.
pub fn decode_as_balance(bytes: &Vec<u8>) -> (r: Option<Balance>)
    ensures
        r matches Some(Balance::Amount(v)) ==> wire::parse_balance(bytes@) == Some(
            wire::BalanceReplyModel::Amount(Some(v)),
        ),
        r matches Some(Balance::Rejected(e)) ==> (wire::parse_balance(bytes@) matches Some(
            wire::BalanceReplyModel::Rejected(m),
        ) && match (e, m) {
            (CommonError::InvalidToken(s), wire::CommonErrModel::InvalidToken(t)) => s@
                == vstd::utf8::decode_utf8(t),
            (CommonError::Other(s), wire::CommonErrModel::Other(t)) => s@
                == vstd::utf8::decode_utf8(t),
            _ => false,
        }),
        wire::parse_balance(bytes@) is None ==> r is None,
{
    match wire::parse_balance_bytes(bytes) {
        Some(wire::RawBalanceReply::Amount(Some(v))) => Some(Balance::Amount(v)),
        Some(wire::RawBalanceReply::Amount(None)) => None,
        Some(wire::RawBalanceReply::Rejected(e)) => match e {
            wire::RawCommonErr::InvalidToken(t) => match crate::ids::string_from_utf8(&t) {
                Some(s) => Some(Balance::Rejected(CommonError::InvalidToken(s))),
                None => None,
            },
            wire::RawCommonErr::Other(t) => match crate::ids::string_from_utf8(&t) {
                Some(s) => Some(Balance::Rejected(CommonError::Other(s))),
                None => None,
            },
        },
        None => None,
    }
}


/// A tagged success reply for an index list always decodes to that
/// list's length.
pub proof fn lemma_decode_tokens_ok_reply(v: Seq<u64>)
    requires
        v.len() <= u64::MAX,
    ensures
        decode_count_spec(wire::tokens_ok_reply(v)) == Ok::<u64, DecodeFailureModel>(
            v.len() as u64,
        ),
{
    reveal(step_tokens_result);
    wire::lemma_tokens_ok_round_trip(v);
}

/// A bare list reply always decodes to its length: the more specific
/// tagged layout cannot claim it, so the cascade falls through to the
/// bare list step.
pub proof fn lemma_decode_bare_list_reply(v: Seq<u64>)
    requires
        v.len() <= u64::MAX,
    ensures
        decode_count_spec(wire::bare_list_reply(v)) == Ok::<u64, DecodeFailureModel>(
            v.len() as u64,
        ),
{
    reveal(step_tokens_result);
    reveal(step_bare_list);
    wire::lemma_bare_list_round_trip(v);
    let s = wire::bare_list_reply(v);
    assert(wire::parse_tokens_result(s) is None) by {
        if wire::has_prefix_spec(s, wire::tokens_result_header()) {
            assert(s.take(wire::tokens_result_header().len() as int)[4]
                == wire::tokens_result_header()[4]);
            assert(s[4] == wire::bare_list_header()[4]);
            assert(false);
        }
    }
}


/// The rendered audit lines of a probe, joined with "; ".
pub open spec fn joined_log_lines(logs: Seq<QueryLog>) -> Seq<char>
    decreases logs.len(),
{
    if logs.len() == 0 {
        Seq::empty()
    } else if logs.len() == 1 {
        query_log_line(logs[0])
    } else {
        query_log_line(logs[0]) + "; "@ + joined_log_lines(logs.drop_first())
    }
}

/// Joining one more line appends a separator and that line.
pub proof fn lemma_joined_log_lines_snoc(logs: Seq<QueryLog>, k: int)
    requires
        0 <= k < logs.len(),
    ensures
        joined_log_lines(logs.take(k + 1)) == if k == 0 {
            query_log_line(logs[0])
        } else {
            joined_log_lines(logs.take(k)) + "; "@ + query_log_line(logs[k])
        },
    decreases k,
{
    if k == 0 {
        assert(logs.take(1).len() == 1);
        assert(logs.take(1)[0] == logs[0]);
    } else {
        lemma_joined_log_lines_snoc(logs.drop_first(), k - 1);
        assert(logs.take(k + 1).drop_first() =~= logs.drop_first().take(k));
        assert(logs.take(k).drop_first() =~= logs.drop_first().take(k - 1));
        assert(logs.take(k + 1)[0] == logs[0]);
        assert(logs.take(k)[0] == logs[0]);
        assert(logs.drop_first()[k - 1] == logs[k]);
        if k == 1 {
            assert(logs.drop_first().take(1).len() == 1);
            assert(logs.drop_first().take(1)[0] == logs[1]);
            assert(joined_log_lines(logs.take(2)) == query_log_line(logs[0]) + "; "@
                + query_log_line(logs[1]));
            assert(joined_log_lines(logs.take(1)) == query_log_line(logs[0]));
        } else {
            assert(query_log_line(logs[0]) + "; "@ + (joined_log_lines(logs.drop_first().take(
                k - 1,
            )) + "; "@ + query_log_line(logs[k])) =~= (query_log_line(logs[0]) + "; "@
                + joined_log_lines(logs.drop_first().take(k - 1))) + "; "@ + query_log_line(
                logs[k],
            ));
        }
    }
}

} // verus!
