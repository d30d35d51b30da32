//! The rules of the upgrade: which requests a server accepts, what it
//! answers, what a client asks and which answers it accepts.

use crate::encoding::{base64_encode, base64_standard, sha1, sha1_digest};
use crate::handshake::{Handshake, HandshakeView};
use crate::headers::{field_value, lemma_position, lookup, with_field, Fields, HeaderMap};
use crate::text::{
    bytes_eq, bytes_eq_ignore_case, eq_ignore_case, find, find_bytes, has_prefix,
    lemma_byte_absent, lemma_byte_first_at, occurs_at, starts_with, trim, trim_end, trim_start,
    trimmed,
};
use vstd::array::array_as_slice;
use vstd::prelude::*;
use vstd::slice::{slice_subrange, slice_to_vec};
use vstd::string::StringSliceAdditionalSpecFns;
use vstd::utf8::{encode_utf8, is_ascii_chars_encode_utf8};

verus! {

/// The fixed text that is appended to a client key before hashing.
pub const GUID: &'static str = "258EAFA5-E914-47DA-95CA-C5AB0DC85B11";

/// The method and the space behind it, with which a request line begins.
pub const GET: &'static str = "GET ";

/// The space and protocol version with which a request line ends.
pub const HTTP_1_1: &'static str = " HTTP/1.1";

/// The text with which every protocol version begins.
pub const HTTP: &'static str = "HTTP/";

/// The status line of an accepting response.
pub const SWITCHING_PROTOCOLS: &'static str = "HTTP/1.1 101 Switching Protocols";

/// The status code of an accepting response.
pub const STATUS_101: &'static str = "101";

pub const HOST: &'static str = "Host";

pub const UPGRADE: &'static str = "Upgrade";

pub const CONNECTION: &'static str = "Connection";

pub const WEBSOCKET: &'static str = "websocket";

pub const SEC_WEBSOCKET_KEY: &'static str = "Sec-WebSocket-Key";

pub const SEC_WEBSOCKET_VERSION: &'static str = "Sec-WebSocket-Version";

pub const SEC_WEBSOCKET_ACCEPT: &'static str = "Sec-WebSocket-Accept";

/// The only protocol version that is spoken.
pub const VERSION: &'static str = "13";

/// Why a handshake was refused.
#[derive(Debug, Clone, Copy, PartialEq, Eq, Structural)]
pub enum HandshakeError {
    /// A required header field is absent or does not carry the required
    /// value.
    MissingHeader,
    /// The request line does not begin with `GET `.
    BadMethod,
    /// The protocol version of the request is malformed or below HTTP/1.1.
    BadVersion,
    /// The accept value of the response is not the one that the key calls
    /// for.
    BadAccept,
    /// The request line is not a method, a target and a version, or the
    /// status line does not carry the status 101.
    BadRequestLine,
}

/// The accept value for a client key: the Base64 text of the SHA-1 digest of
/// the key followed by the fixed GUID.
pub open spec fn accept_value(key: Seq<u8>) -> Seq<char> {
    base64_standard(sha1_digest(key + GUID.spec_bytes()))
}

/// A single space.
pub open spec fn space() -> Seq<u8> {
    seq![0x20u8]
}

/// A single comma.
pub open spec fn comma() -> Seq<u8> {
    seq![0x2cu8]
}

/// An ASCII digit.
pub open spec fn is_digit(b: u8) -> bool {
    0x30 <= b <= 0x39
}

/// Whether `version` reads `HTTP/` major `.` minor, each one digit, and is
/// HTTP/1.1 or higher.
pub open spec fn version_ok(version: Seq<u8>) -> bool {
    let at = HTTP.spec_bytes().len() as int;
    &&& starts_with(version, HTTP.spec_bytes())
    &&& version.len() == at + 3
    &&& is_digit(version[at])
    &&& version[at + 1] == 0x2eu8
    &&& is_digit(version[at + 2])
    &&& (version[at] > 0x31u8 || (version[at] == 0x31u8 && version[at + 2] >= 0x31u8))
}

/// What is wrong with a request line, if anything. The line must begin with
/// `GET `; what follows must be a target that is not empty, one space and a
/// version without a space in it; and the version must be acceptable.
pub open spec fn request_line_error(line: Seq<u8>) -> Option<HandshakeError> {
    if !starts_with(line, GET.spec_bytes()) {
        Some(HandshakeError::BadMethod)
    } else {
        let rest = line.skip(GET.spec_bytes().len() as int);
        match find(rest, space()) {
            None => Some(HandshakeError::BadRequestLine),
            Some(i) => {
                let version = rest.skip(i + 1);
                if i == 0 || find(version, space()) is Some {
                    Some(HandshakeError::BadRequestLine)
                } else if !version_ok(version) {
                    Some(HandshakeError::BadVersion)
                } else {
                    None
                }
            },
        }
    }
}

/// Whether a status line carries the status 101: its second word, the words
/// being parted by single spaces, reads `101`.
pub open spec fn status_is_101(line: Seq<u8>) -> bool {
    match find(line, space()) {
        None => false,
        Some(i) => {
            let rest = line.skip(i + 1);
            let code = STATUS_101.spec_bytes();
            starts_with(rest, code) && (rest.len() == code.len() || rest[code.len() as int]
                == 0x20u8)
        },
    }
}

/// Whether a comma-separated list holds `token`, up to ASCII case and to
/// spaces around the items.
pub open spec fn has_token(list: Seq<u8>, token: Seq<u8>) -> bool
    decreases list.len(),
{
    match find(list, comma()) {
        None => eq_ignore_case(trim(list), token),
        Some(i) => eq_ignore_case(trim(list.take(i)), token) || (0 <= i < list.len()
            && has_token(list.skip(i + 1), token)),
    }
}

/// Whether the fields ask for, or grant, the upgrade to `websocket`.
pub open spec fn upgrade_named(fields: Fields) -> bool {
    match field_value(fields, UPGRADE.spec_bytes()) {
        Some(value) => eq_ignore_case(value, WEBSOCKET.spec_bytes()),
        None => false,
    }
}

/// Whether the `Connection` field lists the token `Upgrade`.
pub open spec fn connection_upgrades(fields: Fields) -> bool {
    match field_value(fields, CONNECTION.spec_bytes()) {
        Some(value) => has_token(value, UPGRADE.spec_bytes()),
        None => false,
    }
}

/// Whether the fields name protocol version 13.
pub open spec fn version_named(fields: Fields) -> bool {
    field_value(fields, SEC_WEBSOCKET_VERSION.spec_bytes()) == Some(VERSION.spec_bytes())
}

/// The client key among the fields, if there is one and it is not empty. The
/// field named exactly `Sec-WebSocket-Key` decides where there is one; a
/// field whose name differs from it in case is read only where there is
/// none.
pub open spec fn client_key(fields: Fields) -> Option<Seq<u8>> {
    match field_value(fields, SEC_WEBSOCKET_KEY.spec_bytes()) {
        Some(key) => if key.len() > 0 {
            Some(key)
        } else {
            None
        },
        None => None,
    }
}

/// Why a server refuses a request, if it does. The request line is judged
/// first; then each of the four required fields must be there with its
/// required value. For each of them the field of exactly that name decides
/// where there is one, and a name that differs in case is read only
/// otherwise.
pub open spec fn request_error(request: HandshakeView) -> Option<HandshakeError> {
    match request_line_error(request.start_line) {
        Some(error) => Some(error),
        None => if upgrade_named(request.headers) && connection_upgrades(request.headers)
            && version_named(request.headers) && client_key(request.headers) is Some {
            None
        } else {
            Some(HandshakeError::MissingHeader)
        },
    }
}

/// Why a client refuses the response to the request that carried `key`, if
/// it does.
pub open spec fn response_error(response: HandshakeView, key: Seq<u8>) -> Option<HandshakeError> {
    if !status_is_101(response.start_line) {
        Some(HandshakeError::BadRequestLine)
    } else if !upgrade_named(response.headers) || !connection_upgrades(response.headers) {
        Some(HandshakeError::MissingHeader)
    } else {
        match field_value(response.headers, SEC_WEBSOCKET_ACCEPT.spec_bytes()) {
            None => Some(HandshakeError::MissingHeader),
            Some(accept) => if accept == encode_utf8(accept_value(key)) {
                None
            } else {
                Some(HandshakeError::BadAccept)
            },
        }
    }
}

/// The response with which a server accepts: status 101 and the three
/// fields, the last one carrying the accept value.
pub open spec fn response_view(accept: Seq<u8>) -> HandshakeView {
    HandshakeView {
        start_line: SWITCHING_PROTOCOLS.spec_bytes(),
        headers: seq![
            (UPGRADE.spec_bytes(), WEBSOCKET.spec_bytes()),
            (CONNECTION.spec_bytes(), UPGRADE.spec_bytes()),
            (SEC_WEBSOCKET_ACCEPT.spec_bytes(), accept),
        ],
    }
}

/// The request with which a client asks for the upgrade.
pub open spec fn request_view(target: Seq<u8>, host: Seq<u8>, key: Seq<u8>) -> HandshakeView {
    HandshakeView {
        start_line: GET.spec_bytes() + target + HTTP_1_1.spec_bytes(),
        headers: seq![
            (HOST.spec_bytes(), host),
            (UPGRADE.spec_bytes(), WEBSOCKET.spec_bytes()),
            (CONNECTION.spec_bytes(), UPGRADE.spec_bytes()),
            (SEC_WEBSOCKET_KEY.spec_bytes(), key),
            (SEC_WEBSOCKET_VERSION.spec_bytes(), VERSION.spec_bytes()),
        ],
    }
}

/// The lengths of the header names that the handshake uses. They all differ,
/// so the names do.
pub proof fn lemma_name_lengths()
    ensures
        HOST.spec_bytes().len() == 4,
        UPGRADE.spec_bytes().len() == 7,
        CONNECTION.spec_bytes().len() == 10,
        SEC_WEBSOCKET_KEY.spec_bytes().len() == 17,
        SEC_WEBSOCKET_VERSION.spec_bytes().len() == 21,
        SEC_WEBSOCKET_ACCEPT.spec_bytes().len() == 20,
{
    reveal_strlit("Host");
    reveal_strlit("Upgrade");
    reveal_strlit("Connection");
    reveal_strlit("Sec-WebSocket-Key");
    reveal_strlit("Sec-WebSocket-Version");
    reveal_strlit("Sec-WebSocket-Accept");
    is_ascii_chars_encode_utf8(HOST@);
    is_ascii_chars_encode_utf8(UPGRADE@);
    is_ascii_chars_encode_utf8(CONNECTION@);
    is_ascii_chars_encode_utf8(SEC_WEBSOCKET_KEY@);
    is_ascii_chars_encode_utf8(SEC_WEBSOCKET_VERSION@);
    is_ascii_chars_encode_utf8(SEC_WEBSOCKET_ACCEPT@);
}

/// Setting a name that no field carries appends the field.
proof fn lemma_with_new_field(fields: Fields, name: Seq<u8>, value: Seq<u8>)
    requires
        forall|i: int| 0 <= i < fields.len() ==> (#[trigger] fields[i]).0.len() != name.len(),
    ensures
        with_field(fields, name, value) == fields.push((name, value)),
{
    lemma_position(fields, name, false);
    match crate::headers::position(fields, name, false) {
        Some(i) => {
            assert(fields[i].0.len() != name.len());
        },
        None => {},
    }
}

/// The bytes of the fixed texts that the rules take apart.
proof fn lemma_fixed_texts()
    ensures
        GET.spec_bytes() == seq![0x47u8, 0x45u8, 0x54u8, 0x20u8],
        HTTP.spec_bytes() == seq![0x48u8, 0x54u8, 0x54u8, 0x50u8, 0x2fu8],
        HTTP_1_1.spec_bytes() == seq![
            0x20u8,
            0x48u8,
            0x54u8,
            0x54u8,
            0x50u8,
            0x2fu8,
            0x31u8,
            0x2eu8,
            0x31u8,
        ],
        STATUS_101.spec_bytes() == seq![0x31u8, 0x30u8, 0x31u8],
        UPGRADE.spec_bytes() == seq![0x55u8, 0x70u8, 0x67u8, 0x72u8, 0x61u8, 0x64u8, 0x65u8],
        SWITCHING_PROTOCOLS.spec_bytes().len() == 32,
        SWITCHING_PROTOCOLS.spec_bytes().take(13) == seq![
            0x48u8,
            0x54u8,
            0x54u8,
            0x50u8,
            0x2fu8,
            0x31u8,
            0x2eu8,
            0x31u8,
            0x20u8,
            0x31u8,
            0x30u8,
            0x31u8,
            0x20u8,
        ],
{
    reveal_strlit("GET ");
    reveal_strlit("HTTP/");
    reveal_strlit(" HTTP/1.1");
    reveal_strlit("101");
    reveal_strlit("Upgrade");
    reveal_strlit("HTTP/1.1 101 Switching Protocols");
    is_ascii_chars_encode_utf8(GET@);
    is_ascii_chars_encode_utf8(HTTP@);
    is_ascii_chars_encode_utf8(HTTP_1_1@);
    is_ascii_chars_encode_utf8(STATUS_101@);
    is_ascii_chars_encode_utf8(UPGRADE@);
    is_ascii_chars_encode_utf8(SWITCHING_PROTOCOLS@);
    assert(GET.spec_bytes() =~= seq![0x47u8, 0x45u8, 0x54u8, 0x20u8]);
    assert(HTTP.spec_bytes() =~= seq![0x48u8, 0x54u8, 0x54u8, 0x50u8, 0x2fu8]);
    assert(HTTP_1_1.spec_bytes() =~= seq![
        0x20u8,
        0x48u8,
        0x54u8,
        0x54u8,
        0x50u8,
        0x2fu8,
        0x31u8,
        0x2eu8,
        0x31u8,
    ]);
    assert(STATUS_101.spec_bytes() =~= seq![0x31u8, 0x30u8, 0x31u8]);
    assert(UPGRADE.spec_bytes() =~= seq![
        0x55u8,
        0x70u8,
        0x67u8,
        0x72u8,
        0x61u8,
        0x64u8,
        0x65u8,
    ]);
    assert(SWITCHING_PROTOCOLS.spec_bytes().take(13) =~= seq![
        0x48u8,
        0x54u8,
        0x54u8,
        0x50u8,
        0x2fu8,
        0x31u8,
        0x2eu8,
        0x31u8,
        0x20u8,
        0x31u8,
        0x30u8,
        0x31u8,
        0x20u8,
    ]);
}

/// Equality up to case holds of every string and itself.
proof fn lemma_eq_ignore_case_reflexive(s: Seq<u8>)
    ensures
        eq_ignore_case(s, s),
{
}

/// Among fields whose names all differ in length, the field at `at` is the
/// one that a lookup of its name finds, with or without regard to case.
proof fn lemma_lookup_by_length(fields: Fields, at: int, ignore_case: bool)
    requires
        0 <= at < fields.len(),
        forall|j: int| 0 <= j < at ==> (#[trigger] fields[j]).0.len() != fields[at].0.len(),
    ensures
        lookup(fields, fields[at].0, ignore_case) == Some(fields[at].1),
{
    lemma_eq_ignore_case_reflexive(fields[at].0);
    assert(crate::headers::is_position(fields, fields[at].0, ignore_case, at)) by {
        assert forall|j: int| 0 <= j < at implies !crate::headers::name_matches(
            #[trigger] fields[j].0,
            fields[at].0,
            ignore_case,
        ) by {
            assert(fields[j].0.len() != fields[at].0.len());
        }
    }
    crate::headers::lemma_position_is(fields, fields[at].0, ignore_case, at);
}

/// The request line that a client writes passes the server's judgment,
/// provided the target is not empty and holds no space.
pub proof fn lemma_request_line_accepted(target: Seq<u8>)
    requires
        target.len() > 0,
        forall|i: int| 0 <= i < target.len() ==> target[i] != 0x20u8,
    ensures
        request_line_error(GET.spec_bytes() + target + HTTP_1_1.spec_bytes()) is None,
{
    lemma_fixed_texts();
    let line = GET.spec_bytes() + target + HTTP_1_1.spec_bytes();
    let n = target.len() as int;
    assert(line.subrange(0, 4) =~= GET.spec_bytes());
    let rest = line.skip(4);
    assert(rest =~= target + HTTP_1_1.spec_bytes());
    assert(rest[n] == 0x20u8);
    assert forall|i: int| 0 <= i < n implies rest[i] != 0x20u8 by {
        assert(rest[i] == target[i]);
    }
    lemma_byte_first_at(rest, 0x20u8, n);
    let version = rest.skip(n + 1);
    assert(version =~= seq![
        0x48u8,
        0x54u8,
        0x54u8,
        0x50u8,
        0x2fu8,
        0x31u8,
        0x2eu8,
        0x31u8,
    ]);
    lemma_byte_absent(version, 0x20u8);
    assert(version.subrange(0, 5) =~= HTTP.spec_bytes());
    assert(version_ok(version));
}

/// A server accepts the request that a client builds: where the target is
/// not empty and holds no space and the nonce is not empty, the request
/// passes every check.
pub proof fn lemma_request_accepted(target: Seq<u8>, host: Seq<u8>, key: Seq<u8>)
    requires
        target.len() > 0,
        forall|i: int| 0 <= i < target.len() ==> target[i] != 0x20u8,
        key.len() > 0,
    ensures
        request_error(request_view(target, host, key)) is None,
        client_key(request_view(target, host, key).headers) == Some(key),
{
    lemma_fixed_texts();
    lemma_name_lengths();
    lemma_request_line_accepted(target);
    let fields = request_view(target, host, key).headers;
    lemma_lookup_by_length(fields, 1, false);
    lemma_lookup_by_length(fields, 2, false);
    lemma_lookup_by_length(fields, 3, false);
    lemma_lookup_by_length(fields, 4, false);
    lemma_eq_ignore_case_reflexive(WEBSOCKET.spec_bytes());
    lemma_upgrade_is_a_token();
}

/// The one-item list `Upgrade` holds the token `Upgrade`.
proof fn lemma_upgrade_is_a_token()
    ensures
        has_token(UPGRADE.spec_bytes(), UPGRADE.spec_bytes()),
{
    lemma_fixed_texts();
    let list = UPGRADE.spec_bytes();
    lemma_byte_absent(list, 0x2cu8);
    assert(trim_start(list) == list);
    assert(trim_end(list) == list);
    lemma_eq_ignore_case_reflexive(list);
}

/// A client accepts the response that a server builds for its nonce.
pub proof fn lemma_response_accepted(key: Seq<u8>)
    ensures
        response_error(response_view(encode_utf8(accept_value(key))), key) is None,
{
    lemma_fixed_texts();
    lemma_name_lengths();
    let response = response_view(encode_utf8(accept_value(key)));
    let line = response.start_line;
    let head = line.take(13);
    assert forall|i: int| 0 <= i < 13 implies line[i] == head[i] by {}
    assert(line[8] == 0x20u8);
    assert forall|i: int| 0 <= i < 8 implies line[i] != 0x20u8 by {
        assert(line[i] == head[i]);
    }
    lemma_byte_first_at(line, 0x20u8, 8);
    let rest = line.skip(9);
    assert(rest.subrange(0, 3) =~= STATUS_101.spec_bytes()) by {
        assert(rest[0] == head[9]);
        assert(rest[1] == head[10]);
        assert(rest[2] == head[11]);
    }
    assert(rest[3] == head[12]);
    assert(status_is_101(line));
    let fields = response.headers;
    lemma_lookup_by_length(fields, 0, false);
    lemma_lookup_by_length(fields, 1, false);
    lemma_lookup_by_length(fields, 2, false);
    lemma_eq_ignore_case_reflexive(WEBSOCKET.spec_bytes());
    lemma_upgrade_is_a_token();
}

/// Client and server agree. For a target that is not empty and holds no
/// space, and a nonce that is not empty: the request that the client builds
/// is accepted by the server, and the response that the server then builds
/// is accepted by the client.
pub proof fn lemma_handshake_agreement(target: Seq<u8>, host: Seq<u8>, key: Seq<u8>)
    requires
        target.len() > 0,
        forall|i: int| 0 <= i < target.len() ==> target[i] != 0x20u8,
        key.len() > 0,
    ensures
        ({
            let request = request_view(target, host, key);
            &&& request_error(request) is None
            &&& client_key(request.headers) matches Some(found)
            &&& response_error(response_view(encode_utf8(accept_value(found))), key) is None
        }),
{
    lemma_request_accepted(target, host, key);
    lemma_response_accepted(key);
}

/// The field named exactly `Sec-WebSocket-Key` decides the client key:
/// whatever else two sets of fields hold, and in whatever order, if both
/// carry the same value under that exact name, both give the same key, and
/// where that value is not empty it is the key.
pub proof fn lemma_client_key_by_exact_name(first: Fields, second: Fields, key: Seq<u8>)
    requires
        lookup(first, SEC_WEBSOCKET_KEY.spec_bytes(), false) == Some(key),
        lookup(second, SEC_WEBSOCKET_KEY.spec_bytes(), false) == Some(key),
    ensures
        client_key(first) == client_key(second),
        key.len() > 0 ==> client_key(first) == Some(key),
{
}

/// Computes the accept value for a client key.
pub fn accept_key(key: &[u8]) -> (accept: String)
    ensures
        accept@ == accept_value(key@),
{
    let mut input = slice_to_vec(key);
    let mut guid = slice_to_vec(GUID.as_bytes());
    input.append(&mut guid);
    let digest = sha1(input.as_slice());
    base64_encode(digest.as_slice())
}

/// Tests whether a protocol version is well-formed and at least HTTP/1.1.
pub fn is_version_ok(version: &[u8]) -> (ok: bool)
    ensures
        ok == version_ok(version@),
{
    let prefix = HTTP.as_bytes();
    if !has_prefix(version, prefix) {
        return false;
    }
    let at = prefix.len();
    if version.len() - at != 3 {
        return false;
    }
    let major = version[at];
    let dot = version[at + 1];
    let minor = version[at + 2];
    0x30 <= major && major <= 0x39 && dot == 0x2e && 0x30 <= minor && minor <= 0x39 && (major
        > 0x31 || (major == 0x31 && minor >= 0x31))
}

/// Judges a request line.
pub fn check_request_line(line: &[u8]) -> (res: Result<(), HandshakeError>)
    ensures
        match res {
            Ok(_) => request_line_error(line@) is None,
            Err(error) => request_line_error(line@) == Some(error),
        },
{
    let get = GET.as_bytes();
    if !has_prefix(line, get) {
        return Err(HandshakeError::BadMethod);
    }
    let rest = slice_subrange(line, get.len(), line.len());
    assert(rest@ =~= line@.skip(GET.spec_bytes().len() as int));
    let sp: [u8; 1] = [0x20];
    assert(sp@ =~= space());
    let len = rest.len();
    match find_bytes(rest, array_as_slice(&sp)) {
        None => Err(HandshakeError::BadRequestLine),
        Some(i) => {
            assert(occurs_at(rest@, space(), i as int));
            let version = slice_subrange(rest, i + 1, len);
            assert(version@ =~= rest@.skip(i + 1));
            if i == 0 || find_bytes(version, array_as_slice(&sp)).is_some() {
                Err(HandshakeError::BadRequestLine)
            } else if !is_version_ok(version) {
                Err(HandshakeError::BadVersion)
            } else {
                Ok(())
            }
        },
    }
}

/// Tests whether a status line carries the status 101.
pub fn is_status_101(line: &[u8]) -> (ok: bool)
    ensures
        ok == status_is_101(line@),
{
    let sp: [u8; 1] = [0x20];
    assert(sp@ =~= space());
    let len = line.len();
    match find_bytes(line, array_as_slice(&sp)) {
        None => false,
        Some(i) => {
            assert(occurs_at(line@, space(), i as int));
            let rest = slice_subrange(line, i + 1, len);
            assert(rest@ =~= line@.skip(i + 1));
            let code = STATUS_101.as_bytes();
            has_prefix(rest, code) && (rest.len() == code.len() || rest[code.len()] == 0x20)
        },
    }
}

/// Tests whether a comma-separated list holds `token`, up to ASCII case and
/// to spaces around the items.
pub fn contains_token(list: &[u8], token: &[u8]) -> (found: bool)
    ensures
        found == has_token(list@, token@),
{
    let sep: [u8; 1] = [0x2c];
    assert(sep@ =~= comma());
    let len = list.len();
    let mut pos: usize = 0;
    assert(list@.skip(0) =~= list@);
    loop
        invariant
            pos <= len,
            len == list@.len(),
            sep@ == comma(),
            has_token(list@, token@) == has_token(list@.skip(pos as int), token@),
        decreases len - pos,
    {
        let rest = slice_subrange(list, pos, len);
        assert(rest@ =~= list@.skip(pos as int));
        let rest_len = rest.len();
        match find_bytes(rest, array_as_slice(&sep)) {
            None => {
                let item = trimmed(rest, 0, rest_len);
                assert(rest@.subrange(0, rest_len as int) =~= rest@);
                return bytes_eq_ignore_case(item.as_slice(), token);
            },
            Some(i) => {
                assert(occurs_at(rest@, comma(), i as int));
                let item = trimmed(rest, 0, i);
                assert(rest@.subrange(0, i as int) =~= rest@.take(i as int));
                if bytes_eq_ignore_case(item.as_slice(), token) {
                    return true;
                }
                assert(rest@.skip(i + 1) =~= list@.skip(pos + i + 1));
                pos = pos + i + 1;
            },
        }
    }
}

/// Tests whether the fields ask for, or grant, the upgrade to `websocket`.
pub fn names_upgrade(headers: &HeaderMap) -> (ok: bool)
    ensures
        ok == upgrade_named(headers@),
{
    match headers.value_of(UPGRADE.as_bytes()) {
        Some(value) => bytes_eq_ignore_case(value.as_slice(), WEBSOCKET.as_bytes()),
        None => false,
    }
}

/// Tests whether the `Connection` field lists the token `Upgrade`.
pub fn lists_upgrade(headers: &HeaderMap) -> (ok: bool)
    ensures
        ok == connection_upgrades(headers@),
{
    match headers.value_of(CONNECTION.as_bytes()) {
        Some(value) => contains_token(value.as_slice(), UPGRADE.as_bytes()),
        None => false,
    }
}

/// Tests whether the fields name protocol version 13.
pub fn names_version(headers: &HeaderMap) -> (ok: bool)
    ensures
        ok == version_named(headers@),
{
    match headers.value_of(SEC_WEBSOCKET_VERSION.as_bytes()) {
        Some(value) => bytes_eq(value.as_slice(), VERSION.as_bytes()),
        None => false,
    }
}

impl Handshake {
    /// Computes the accept value that answers the client key among
    /// `headers`. The key is the value under `Sec-WebSocket-Key`, used as it
    /// stands; a field whose name differs in case is read only where none
    /// has exactly that name. Fails with `MissingHeader` exactly when there
    /// is no such field or its value is empty.
    pub fn try_key_handshake(headers: &HeaderMap) -> (res: Result<String, HandshakeError>)
        ensures
            match res {
                Ok(accept) => {
                    &&& client_key(headers@) matches Some(key)
                    &&& accept@ == accept_value(key)
                },
                Err(error) => {
                    &&& client_key(headers@) is None
                    &&& error == HandshakeError::MissingHeader
                },
            },
    {
        match headers.value_of(SEC_WEBSOCKET_KEY.as_bytes()) {
            Some(key) => {
                if key.len() > 0 {
                    Ok(accept_key(key.as_slice()))
                } else {
                    Err(HandshakeError::MissingHeader)
                }
            },
            None => Err(HandshakeError::MissingHeader),
        }
    }

    /// The response with which a server accepts the upgrade.
    pub fn response(accept: &str) -> (message: Handshake)
        ensures
            message@ == response_view(accept.spec_bytes()),
    {
        let mut headers = HeaderMap::new();
        proof {
            lemma_name_lengths();
            lemma_with_new_field(headers@, UPGRADE.spec_bytes(), WEBSOCKET.spec_bytes());
        }
        headers.insert(slice_to_vec(UPGRADE.as_bytes()), slice_to_vec(WEBSOCKET.as_bytes()));
        proof {
            lemma_with_new_field(headers@, CONNECTION.spec_bytes(), UPGRADE.spec_bytes());
        }
        headers.insert(slice_to_vec(CONNECTION.as_bytes()), slice_to_vec(UPGRADE.as_bytes()));
        proof {
            lemma_with_new_field(
                headers@,
                SEC_WEBSOCKET_ACCEPT.spec_bytes(),
                accept.spec_bytes(),
            );
        }
        headers.insert(
            slice_to_vec(SEC_WEBSOCKET_ACCEPT.as_bytes()),
            slice_to_vec(accept.as_bytes()),
        );
        assert(headers@ =~= response_view(accept.spec_bytes()).headers);
        Handshake { start_line: slice_to_vec(SWITCHING_PROTOCOLS.as_bytes()), headers }
    }

    /// The request with which a client asks for the upgrade of `target` on
    /// `host`, carrying `key` as its nonce.
    pub fn request(target: &[u8], host: &[u8], key: &str) -> (message: Handshake)
        ensures
            message@ == request_view(target@, host@, key.spec_bytes()),
    {
        let mut start_line = slice_to_vec(GET.as_bytes());
        let mut path = slice_to_vec(target);
        let mut version = slice_to_vec(HTTP_1_1.as_bytes());
        start_line.append(&mut path);
        start_line.append(&mut version);
        let mut headers = HeaderMap::new();
        proof {
            lemma_name_lengths();
            lemma_with_new_field(headers@, HOST.spec_bytes(), host@);
        }
        headers.insert(slice_to_vec(HOST.as_bytes()), slice_to_vec(host));
        proof {
            lemma_with_new_field(headers@, UPGRADE.spec_bytes(), WEBSOCKET.spec_bytes());
        }
        headers.insert(slice_to_vec(UPGRADE.as_bytes()), slice_to_vec(WEBSOCKET.as_bytes()));
        proof {
            lemma_with_new_field(headers@, CONNECTION.spec_bytes(), UPGRADE.spec_bytes());
        }
        headers.insert(slice_to_vec(CONNECTION.as_bytes()), slice_to_vec(UPGRADE.as_bytes()));
        proof {
            lemma_with_new_field(headers@, SEC_WEBSOCKET_KEY.spec_bytes(), key.spec_bytes());
        }
        headers.insert(slice_to_vec(SEC_WEBSOCKET_KEY.as_bytes()), slice_to_vec(key.as_bytes()));
        proof {
            lemma_with_new_field(
                headers@,
                SEC_WEBSOCKET_VERSION.spec_bytes(),
                VERSION.spec_bytes(),
            );
        }
        headers.insert(
            slice_to_vec(SEC_WEBSOCKET_VERSION.as_bytes()),
            slice_to_vec(VERSION.as_bytes()),
        );
        assert(headers@ =~= request_view(target@, host@, key.spec_bytes()).headers);
        Handshake { start_line, headers }
    }

    /// Judges this message as a request for the upgrade and, where it is
    /// acceptable, builds the response that accepts it.
    pub fn accept_request(&self) -> (res: Result<Handshake, HandshakeError>)
        ensures
            match res {
                Ok(response) => {
                    &&& request_error(self@) is None
                    &&& client_key(self@.headers) matches Some(key)
                    &&& response@ == response_view(encode_utf8(accept_value(key)))
                },
                Err(error) => request_error(self@) == Some(error),
            },
    {
        match check_request_line(self.start_line.as_slice()) {
            Err(error) => {
                return Err(error);
            },
            Ok(_) => {},
        }
        if !names_upgrade(&self.headers) || !lists_upgrade(&self.headers) || !names_version(
            &self.headers,
        ) {
            return Err(HandshakeError::MissingHeader);
        }
        match Handshake::try_key_handshake(&self.headers) {
            Ok(accept) => Ok(Handshake::response(accept.as_str())),
            Err(error) => Err(error),
        }
    }

    /// Judges this message as the response to the request that carried
    /// `key`.
    pub fn check_response(&self, key: &[u8]) -> (res: Result<(), HandshakeError>)
        ensures
            match res {
                Ok(_) => response_error(self@, key@) is None,
                Err(error) => response_error(self@, key@) == Some(error),
            },
    {
        if !is_status_101(self.start_line.as_slice()) {
            return Err(HandshakeError::BadRequestLine);
        }
        if !names_upgrade(&self.headers) || !lists_upgrade(&self.headers) {
            return Err(HandshakeError::MissingHeader);
        }
        match self.headers.value_of(SEC_WEBSOCKET_ACCEPT.as_bytes()) {
            None => Err(HandshakeError::MissingHeader),
            Some(accept) => {
                let expected = accept_key(key);
                if bytes_eq(accept.as_slice(), expected.as_str().as_bytes()) {
                    Ok(())
                } else {
                    Err(HandshakeError::BadAccept)
                }
            },
        }
    }
}

} // verus!
