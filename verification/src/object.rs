//! The rich protocol objects and their canonical binary self-encoding.
//!
//! Each object kind carries the plain values that the wire cares about; its
//! canonical encoding is the corresponding protobuf message, produced and
//! parsed by the `ibc-proto`/`prost` crates behind the trusted wrappers at
//! the bottom of this file.  The codec layer never looks inside the encoded
//! bytes: it stores them, ships them, and hands them back to the wrappers.

use vstd::prelude::*;

use crate::error::Error;

verus! {

/// What an `Any`-shaped object (client state, consensus state, header)
/// abstractly is: a type URL and the payload it wraps.
#[verifier::ext_equal]
pub struct AnyView {
    pub type_url: Seq<char>,
    pub value: Seq<u8>,
}

/// What a counterparty descriptor abstractly is.
#[verifier::ext_equal]
pub struct CounterpartyView {
    pub client_id: Seq<char>,
    pub connection_id: Seq<char>,
    pub prefix: Seq<u8>,
}

/// What a connection version abstractly is.
#[verifier::ext_equal]
pub struct VersionView {
    pub identifier: Seq<char>,
    pub features: Seq<Seq<char>>,
}

/// The canonical protobuf encoding of an `Any` message with the given fields.
pub uninterp spec fn any_wire(type_url: Seq<char>, value: Seq<u8>) -> Seq<u8>;

/// What parsing bytes as an `Any` message recovers, if anything.
pub uninterp spec fn any_parse(bytes: Seq<u8>) -> Option<AnyView>;

/// The canonical protobuf encoding of a counterparty descriptor.
pub uninterp spec fn counterparty_wire(
    client_id: Seq<char>,
    connection_id: Seq<char>,
    prefix: Seq<u8>,
) -> Seq<u8>;

/// What parsing bytes as a counterparty descriptor recovers, if anything.
pub uninterp spec fn counterparty_parse(bytes: Seq<u8>) -> Option<CounterpartyView>;

/// The canonical protobuf encoding of a connection version.
pub uninterp spec fn version_wire(identifier: Seq<char>, features: Seq<Seq<char>>) -> Seq<u8>;

/// What parsing bytes as a connection version recovers, if anything.
pub uninterp spec fn version_parse(bytes: Seq<u8>) -> Option<VersionView>;

/// Whether bytes parse as a membership-proof message.
pub uninterp spec fn merkle_proof_parses(bytes: Seq<u8>) -> bool;

/// Relies on prost's `Message::encode_to_vec` at ibc-proto's
/// `google.protobuf.Any`: the encoding is a function of the two fields
/// alone, and decoding it yields the fields back.
#[verifier::external_body]
fn encode_any(type_url: &String, value: &Vec<u8>) -> (r: Vec<u8>)
    ensures
        r@ == any_wire(type_url@, value@),
        any_parse(r@) == Some(AnyView { type_url: type_url@, value: value@ }),
{
    let msg = ibc_proto::google::protobuf::Any {
        type_url: type_url.clone(),
        value: value.clone(),
    };
    prost::Message::encode_to_vec(&msg)
}

/// Relies on prost's `Message::decode` at ibc-proto's `google.protobuf.Any`:
/// the outcome is a function of the bytes alone.
#[verifier::external_body]
fn decode_any(bytes: &Vec<u8>) -> (r: Result<(String, Vec<u8>), Error>)
    ensures
        match r {
            Ok(p) => any_parse(bytes@) == Some(AnyView { type_url: p.0@, value: p.1@ }),
            Err(_) => any_parse(bytes@) is None,
        },
{
    match <ibc_proto::google::protobuf::Any as prost::Message>::decode(bytes.as_slice()) {
        Ok(a) => Ok((a.type_url, a.value)),
        Err(e) => Err(Error::DecodingError(e.to_string())),
    }
}

/// Relies on prost's `Message::encode_to_vec` at ibc-proto's
/// `ibc.core.connection.v1.Counterparty` (prefix always present): the
/// encoding is a function of the three fields alone, and decoding it yields
/// the fields back.
#[verifier::external_body]
fn encode_counterparty(client_id: &String, connection_id: &String, prefix: &Vec<u8>) -> (r: Vec<
    u8,
>)
    ensures
        r@ == counterparty_wire(client_id@, connection_id@, prefix@),
        counterparty_parse(r@) == Some(
            CounterpartyView {
                client_id: client_id@,
                connection_id: connection_id@,
                prefix: prefix@,
            },
        ),
{
    let msg = ibc_proto::ibc::core::connection::v1::Counterparty {
        client_id: client_id.clone(),
        connection_id: connection_id.clone(),
        prefix: Some(
            ibc_proto::ibc::core::commitment::v1::MerklePrefix { key_prefix: prefix.clone() },
        ),
    };
    prost::Message::encode_to_vec(&msg)
}

/// Relies on prost's `Message::decode` at ibc-proto's
/// `ibc.core.connection.v1.Counterparty`: the outcome is a function of the
/// bytes alone, and a missing commitment prefix is reported as a decoding
/// failure.
#[verifier::external_body]
fn decode_counterparty(bytes: &Vec<u8>) -> (r: Result<(String, String, Vec<u8>), Error>)
    ensures
        match r {
            Ok(p) => counterparty_parse(bytes@) == Some(
                CounterpartyView { client_id: p.0@, connection_id: p.1@, prefix: p.2@ },
            ),
            Err(_) => counterparty_parse(bytes@) is None,
        },
{
    let raw = match <ibc_proto::ibc::core::connection::v1::Counterparty as prost::Message>::decode(
        bytes.as_slice(),
    ) {
        Ok(raw) => raw,
        Err(e) => return Err(Error::DecodingError(e.to_string())),
    };
    match raw.prefix {
        Some(p) => Ok((raw.client_id, raw.connection_id, p.key_prefix)),
        None => Err(Error::DecodingError("counterparty without commitment prefix".to_owned())),
    }
}

/// Relies on prost's `Message::encode_to_vec` at ibc-proto's
/// `ibc.core.connection.v1.Version`: the encoding is a function of the two
/// fields alone, and decoding it yields the fields back.
#[verifier::external_body]
fn encode_version(identifier: &String, features: &Vec<String>) -> (r: Vec<u8>)
    ensures
        r@ == version_wire(identifier@, features.deep_view()),
        version_parse(r@) == Some(
            VersionView { identifier: identifier@, features: features.deep_view() },
        ),
{
    let msg = ibc_proto::ibc::core::connection::v1::Version {
        identifier: identifier.clone(),
        features: features.clone(),
    };
    prost::Message::encode_to_vec(&msg)
}

/// Relies on prost's `Message::decode` at ibc-proto's
/// `ibc.core.connection.v1.Version`: the outcome is a function of the bytes
/// alone.
#[verifier::external_body]
fn decode_version(bytes: &Vec<u8>) -> (r: Result<(String, Vec<String>), Error>)
    ensures
        match r {
            Ok(p) => version_parse(bytes@) == Some(
                VersionView { identifier: p.0@, features: p.1.deep_view() },
            ),
            Err(_) => version_parse(bytes@) is None,
        },
{
    match <ibc_proto::ibc::core::connection::v1::Version as prost::Message>::decode(
        bytes.as_slice(),
    ) {
        Ok(v) => Ok((v.identifier, v.features)),
        Err(e) => Err(Error::DecodingError(e.to_string())),
    }
}

/// Relies on prost's `Message::decode` at ibc-proto's
/// `ibc.core.commitment.v1.MerkleProof`: whether it succeeds is a function of
/// the bytes alone.
#[verifier::external_body]
fn merkle_proof_check(bytes: &Vec<u8>) -> (r: bool)
    ensures
        r == merkle_proof_parses(bytes@),
{
    <ibc_proto::ibc::core::commitment::v1::MerkleProof as prost::Message>::decode(
        bytes.as_slice(),
    ).is_ok()
}

/// The capability every transported object kind implements once: canonical
/// self-encoding to bytes, and recovery from bytes.  Encoding never fails;
/// decoding recovers exactly the encoded object and fails only on bytes that
/// are no encoding at all.
pub trait CanonicalEncoding: View + Sized {
    /// The object's canonical binary self-encoding.
    spec fn wire(&self) -> Seq<u8>;

    /// What decoding recovers from arbitrary bytes, if anything.
    spec fn parsed(bytes: Seq<u8>) -> Option<Self::V>;

    fn encode_vec(&self) -> (r: Vec<u8>)
        ensures
            r@ == self.wire(),
            Self::parsed(self.wire()) == Some(self@),
    ;

    fn decode_vec(bytes: &Vec<u8>) -> (r: Result<Self, Error>)
        ensures
            r matches Ok(y) ==> Self::parsed(bytes@) == Some(y@),
            r is Err ==> Self::parsed(bytes@) is None,
    ;
}

/// A light-client client state, wrapped in its `Any` envelope.
#[derive(Debug, Clone, PartialEq, Eq)]
pub struct ClientState {
    pub type_url: String,
    pub value: Vec<u8>,
}

impl View for ClientState {
    type V = AnyView;

    open spec fn view(&self) -> AnyView {
        AnyView { type_url: self.type_url@, value: self.value@ }
    }
}

impl CanonicalEncoding for ClientState {
    open spec fn wire(&self) -> Seq<u8> {
        any_wire(self.type_url@, self.value@)
    }

    open spec fn parsed(bytes: Seq<u8>) -> Option<AnyView> {
        any_parse(bytes)
    }

    fn encode_vec(&self) -> (r: Vec<u8>) {
        encode_any(&self.type_url, &self.value)
    }

    fn decode_vec(bytes: &Vec<u8>) -> (r: Result<Self, Error>) {
        match decode_any(bytes) {
            Ok(p) => Ok(ClientState { type_url: p.0, value: p.1 }),
            Err(e) => Err(e),
        }
    }
}

/// A light-client consensus state, wrapped in its `Any` envelope.
#[derive(Debug, Clone, PartialEq, Eq)]
pub struct ConsensusState {
    pub type_url: String,
    pub value: Vec<u8>,
}

impl View for ConsensusState {
    type V = AnyView;

    open spec fn view(&self) -> AnyView {
        AnyView { type_url: self.type_url@, value: self.value@ }
    }
}

impl CanonicalEncoding for ConsensusState {
    open spec fn wire(&self) -> Seq<u8> {
        any_wire(self.type_url@, self.value@)
    }

    open spec fn parsed(bytes: Seq<u8>) -> Option<AnyView> {
        any_parse(bytes)
    }

    fn encode_vec(&self) -> (r: Vec<u8>) {
        encode_any(&self.type_url, &self.value)
    }

    fn decode_vec(bytes: &Vec<u8>) -> (r: Result<Self, Error>) {
        match decode_any(bytes) {
            Ok(p) => Ok(ConsensusState { type_url: p.0, value: p.1 }),
            Err(e) => Err(e),
        }
    }
}

/// A light-client header, wrapped in its `Any` envelope.
#[derive(Debug, Clone, PartialEq, Eq)]
pub struct Header {
    pub type_url: String,
    pub value: Vec<u8>,
}

impl View for Header {
    type V = AnyView;

    open spec fn view(&self) -> AnyView {
        AnyView { type_url: self.type_url@, value: self.value@ }
    }
}

impl CanonicalEncoding for Header {
    open spec fn wire(&self) -> Seq<u8> {
        any_wire(self.type_url@, self.value@)
    }

    open spec fn parsed(bytes: Seq<u8>) -> Option<AnyView> {
        any_parse(bytes)
    }

    fn encode_vec(&self) -> (r: Vec<u8>) {
        encode_any(&self.type_url, &self.value)
    }

    fn decode_vec(bytes: &Vec<u8>) -> (r: Result<Self, Error>) {
        match decode_any(bytes) {
            Ok(p) => Ok(Header { type_url: p.0, value: p.1 }),
            Err(e) => Err(e),
        }
    }
}

/// The descriptor of the counterparty connection end.
#[derive(Debug, Clone, PartialEq, Eq)]
pub struct Counterparty {
    pub client_id: String,
    pub connection_id: String,
    pub prefix: Vec<u8>,
}

impl View for Counterparty {
    type V = CounterpartyView;

    open spec fn view(&self) -> CounterpartyView {
        CounterpartyView {
            client_id: self.client_id@,
            connection_id: self.connection_id@,
            prefix: self.prefix@,
        }
    }
}

impl CanonicalEncoding for Counterparty {
    open spec fn wire(&self) -> Seq<u8> {
        counterparty_wire(self.client_id@, self.connection_id@, self.prefix@)
    }

    open spec fn parsed(bytes: Seq<u8>) -> Option<CounterpartyView> {
        counterparty_parse(bytes)
    }

    fn encode_vec(&self) -> (r: Vec<u8>) {
        encode_counterparty(&self.client_id, &self.connection_id, &self.prefix)
    }

    fn decode_vec(bytes: &Vec<u8>) -> (r: Result<Self, Error>) {
        match decode_counterparty(bytes) {
            Ok(p) => Ok(Counterparty { client_id: p.0, connection_id: p.1, prefix: p.2 }),
            Err(e) => Err(e),
        }
    }
}

/// A connection version: an identifier and its feature set.
#[derive(Debug, Clone, PartialEq, Eq)]
pub struct Version {
    pub identifier: String,
    pub features: Vec<String>,
}

impl View for Version {
    type V = VersionView;

    open spec fn view(&self) -> VersionView {
        VersionView { identifier: self.identifier@, features: self.features.deep_view() }
    }
}

impl CanonicalEncoding for Version {
    open spec fn wire(&self) -> Seq<u8> {
        version_wire(self.identifier@, self.features.deep_view())
    }

    open spec fn parsed(bytes: Seq<u8>) -> Option<VersionView> {
        version_parse(bytes)
    }

    fn encode_vec(&self) -> (r: Vec<u8>) {
        encode_version(&self.identifier, &self.features)
    }

    fn decode_vec(bytes: &Vec<u8>) -> (r: Result<Self, Error>) {
        match decode_version(bytes) {
            Ok(p) => Ok(Version { identifier: p.0, features: p.1 }),
            Err(e) => Err(e),
        }
    }
}

/// A membership proof, carried as its canonical encoding and validated on
/// access.
#[derive(Debug, Clone, PartialEq, Eq)]
pub struct MerkleProofData {
    pub bytes: Vec<u8>,
}

impl View for MerkleProofData {
    type V = Seq<u8>;

    open spec fn view(&self) -> Seq<u8> {
        self.bytes@
    }
}

impl MerkleProofData {
    /// Wrap proof bytes when, and only when, they parse as a proof message.
    pub fn from_bytes(bytes: Vec<u8>) -> (r: Result<MerkleProofData, Error>)
        ensures
            r matches Ok(p) ==> p@ == bytes@ && merkle_proof_parses(bytes@),
            r is Err <==> !merkle_proof_parses(bytes@),
    {
        if merkle_proof_check(&bytes) {
            Ok(MerkleProofData { bytes })
        } else {
            Err(Error::DecodingError("malformed membership proof".to_owned()))
        }
    }
}

} // verus!
