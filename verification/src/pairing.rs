//! The pair-setup handshake: message building, response validation, peer
//! error mapping, and the strict request/response state machine.
//!
//! The session never performs transport itself: the caller posts each
//! request body it hands out and feeds back the response status and bytes.
//! Every decision in between — status gating, decoding, state validation,
//! the SRP step — is made here.

use vstd::prelude::*;
use vstd::string::StringSliceAdditionalSpecFns;

use crate::credentials::{
    random_secret, srp_client_proof, srp_client_public, srp_proof_of, srp_public_of, srp_reply_ok,
    srp_server_proof_of, srp_verify_server,
};
use crate::discovery::is_dec_digit;
use crate::tlv8::{
    chunk_bytes, items_view, lemma_encode_push, push_range, spec_decode, spec_encode, CodecError,
    Tlv8Reader, Tlv8Writer, TlvType,
};

verus! {

/// The pairing method named in the first handshake message.
#[derive(Debug, Clone, Copy, PartialEq, Eq, Structural)]
pub enum PairingMethod {
    PairSetup,
    PairSetupWithAuth,
    PairVerify,
    AddPairing,
    RemovePairing,
    ListPairings,
}

/// The wire code of a pairing method.
pub open spec fn spec_method_code(m: PairingMethod) -> u8 {
    match m {
        PairingMethod::PairSetup => 0x00,
        PairingMethod::PairSetupWithAuth => 0x01,
        PairingMethod::PairVerify => 0x02,
        PairingMethod::AddPairing => 0x03,
        PairingMethod::RemovePairing => 0x04,
        PairingMethod::ListPairings => 0x05,
    }
}

impl PairingMethod {
    /// The wire code of this method.
    pub fn code(self) -> (r: u8)
        ensures
            r == spec_method_code(self),
    {
        match self {
            PairingMethod::PairSetup => 0x00,
            PairingMethod::PairSetupWithAuth => 0x01,
            PairingMethod::PairVerify => 0x02,
            PairingMethod::AddPairing => 0x03,
            PairingMethod::RemovePairing => 0x04,
            PairingMethod::ListPairings => 0x05,
        }
    }
}

/// One of the six handshake rounds.
#[derive(Debug, Clone, Copy, PartialEq, Eq, Structural)]
pub enum PairingState {
    M1,
    M2,
    M3,
    M4,
    M5,
    M6,
}

/// The state number a round carries on the wire.
pub open spec fn spec_state_code(s: PairingState) -> u8 {
    match s {
        PairingState::M1 => 1,
        PairingState::M2 => 2,
        PairingState::M3 => 3,
        PairingState::M4 => 4,
        PairingState::M5 => 5,
        PairingState::M6 => 6,
    }
}

impl PairingState {
    /// The state number this round carries on the wire.
    pub fn code(self) -> (r: u8)
        ensures
            r == spec_state_code(self),
    {
        match self {
            PairingState::M1 => 1,
            PairingState::M2 => 2,
            PairingState::M3 => 3,
            PairingState::M4 => 4,
            PairingState::M5 => 5,
            PairingState::M6 => 6,
        }
    }
}

/// Why a pairing session ended without success.
#[derive(Debug, Clone, Copy, PartialEq, Eq, Structural)]
pub enum PairingError {
    /// Peer error code 0x01.
    Unknown,
    /// Peer error code 0x02, or a server confirmation proof that does not
    /// verify.
    AuthenticationFailed,
    /// Peer error code 0x03.
    Backoff,
    /// Peer error code 0x04.
    MaxPeersReached,
    /// Peer error code 0x05.
    MaxTriesReached,
    /// Peer error code 0x06.
    Unavailable,
    /// Peer error code 0x07.
    Busy,
    /// Any other peer error code.
    UnknownErrorCode(u8),
    /// A response whose declared state is not the expected one, or which
    /// lacks a field the round requires.
    ProtocolViolation,
    /// The SRP computation rejected the server's parameters.
    CryptoError,
    /// A non-success transport status.
    TransportError,
    /// The final encrypted exchange is an explicit extension point; a
    /// session that reaches it ends here rather than pretending success.
    NotImplemented,
    /// The response bytes are not well-formed TLV8.
    Codec(CodecError),
}

/// The failure a peer-reported error byte maps to.
pub open spec fn spec_error_from_code(code: u8) -> PairingError {
    match code {
        0x01 => PairingError::Unknown,
        0x02 => PairingError::AuthenticationFailed,
        0x03 => PairingError::Backoff,
        0x04 => PairingError::MaxPeersReached,
        0x05 => PairingError::MaxTriesReached,
        0x06 => PairingError::Unavailable,
        0x07 => PairingError::Busy,
        _ => PairingError::UnknownErrorCode(code),
    }
}

/// Maps a peer-reported error byte to its failure.
pub fn pairing_error_from_code(code: u8) -> (r: PairingError)
    ensures
        r == spec_error_from_code(code),
{
    match code {
        0x01 => PairingError::Unknown,
        0x02 => PairingError::AuthenticationFailed,
        0x03 => PairingError::Backoff,
        0x04 => PairingError::MaxPeersReached,
        0x05 => PairingError::MaxTriesReached,
        0x06 => PairingError::Unavailable,
        0x07 => PairingError::Busy,
        _ => PairingError::UnknownErrorCode(code),
    }
}

// ---------------------------------------------------------------------------
// Field extraction from a decoded response
// ---------------------------------------------------------------------------

/// The value of the last item with the given tag; a later item overrides an
/// earlier one of the same tag.
pub open spec fn spec_find_field(items: Seq<(TlvType, Seq<u8>)>, t: TlvType) -> Option<Seq<u8>>
    decreases items.len(),
{
    if items.len() == 0 {
        None
    } else if items.last().0 == t {
        Some(items.last().1)
    } else {
        spec_find_field(items.drop_last(), t)
    }
}

/// The first byte of that field, if the field is present and nonempty.
pub open spec fn spec_field_first_byte(items: Seq<(TlvType, Seq<u8>)>, t: TlvType) -> Option<u8> {
    match spec_find_field(items, t) {
        Some(v) => if v.len() > 0 {
            Some(v[0])
        } else {
            None
        },
        None => None,
    }
}

fn clone_bytes(src: &Vec<u8>) -> (r: Vec<u8>)
    ensures
        r@ == src@,
{
    let mut out: Vec<u8> = Vec::new();
    push_range(&mut out, src.as_slice(), 0, src.len());
    proof {
        assert(src@.subrange(0, src@.len() as int) =~= src@);
        assert(Seq::<u8>::empty() + src@ =~= src@);
    }
    out
}

/// The value of the last item with the given tag, as the reader returned it.
pub fn find_field(items: &Vec<(TlvType, Vec<u8>)>, t: TlvType) -> (r: Option<Vec<u8>>)
    ensures
        (match r {
            Some(v) => spec_find_field(items_view(items@), t) == Some(v@),
            None => spec_find_field(items_view(items@), t) is None,
        }),
{
    let ghost iv = items_view(items@);
    let mut i: usize = items.len();
    proof {
        assert(iv.take(items@.len() as int) =~= iv);
    }
    while i > 0
        invariant
            i <= items@.len(),
            iv == items_view(items@),
            spec_find_field(iv, t) == spec_find_field(iv.take(i as int), t),
        decreases i,
    {
        let idx = i - 1;
        if items[idx].0 == t {
            proof {
                assert(iv[idx as int] == (items@[idx as int].0, items@[idx as int].1@));
                assert(iv.take(i as int).last() == iv[idx as int]);
                assert(spec_find_field(iv.take(i as int), t) == Some(iv[idx as int].1));
            }
            return Some(clone_bytes(&items[idx].1));
        }
        proof {
            assert(iv[idx as int] == (items@[idx as int].0, items@[idx as int].1@));
            assert(iv.take(i as int).last() == iv[idx as int]);
            assert(iv.take(i as int).drop_last() =~= iv.take(idx as int));
        }
        i = idx;
    }
    proof {
        assert(iv.take(0) =~= Seq::<(TlvType, Seq<u8>)>::empty());
    }
    None
}

// ---------------------------------------------------------------------------
// Round validation
// ---------------------------------------------------------------------------

/// What validating one inbound round yields: an error field short-circuits
/// first; then the declared state and the two required fields are checked;
/// a missing field or an unexpected state is a protocol violation.
pub open spec fn spec_extract_round(
    items: Seq<(TlvType, Seq<u8>)>,
    expected: u8,
    t1: TlvType,
    t2: TlvType,
) -> Result<(Seq<u8>, Seq<u8>), PairingError> {
    let err = spec_field_first_byte(items, TlvType::Error);
    let st = spec_field_first_byte(items, TlvType::State);
    if err is Some {
        Err(spec_error_from_code(err->0))
    } else if st is None {
        Err(PairingError::ProtocolViolation)
    } else if spec_find_field(items, t1) is None {
        Err(PairingError::ProtocolViolation)
    } else if spec_find_field(items, t2) is None {
        Err(PairingError::ProtocolViolation)
    } else if st->0 != expected {
        Err(PairingError::ProtocolViolation)
    } else {
        Ok((spec_find_field(items, t1)->0, spec_find_field(items, t2)->0))
    }
}

fn extract_round(items: &Vec<(TlvType, Vec<u8>)>, expected: u8, t1: TlvType, t2: TlvType) -> (r:
    Result<(Vec<u8>, Vec<u8>), PairingError>)
    ensures
        (match r {
            Ok(p) => spec_extract_round(items_view(items@), expected, t1, t2) == Ok::<
                (Seq<u8>, Seq<u8>),
                PairingError,
            >((p.0@, p.1@)),
            Err(e) => spec_extract_round(items_view(items@), expected, t1, t2) == Err::<
                (Seq<u8>, Seq<u8>),
                PairingError,
            >(e),
        }),
{
    if let Some(v) = find_field(items, TlvType::Error) {
        if v.len() > 0 {
            return Err(pairing_error_from_code(v[0]));
        }
    }
    let state_byte: u8 = match find_field(items, TlvType::State) {
        Some(v) => {
            if v.len() > 0 {
                v[0]
            } else {
                return Err(PairingError::ProtocolViolation);
            }
        },
        None => {
            return Err(PairingError::ProtocolViolation);
        },
    };
    let v1 = match find_field(items, t1) {
        Some(v) => v,
        None => {
            return Err(PairingError::ProtocolViolation);
        },
    };
    let v2 = match find_field(items, t2) {
        Some(v) => v,
        None => {
            return Err(PairingError::ProtocolViolation);
        },
    };
    if state_byte != expected {
        return Err(PairingError::ProtocolViolation);
    }
    Ok((v1, v2))
}

/// Validates the second handshake message: expects state 2 with the salt
/// and the server's public key.
pub fn handle_m2(items: &Vec<(TlvType, Vec<u8>)>) -> (r: Result<(Vec<u8>, Vec<u8>), PairingError>)
    ensures
        (match r {
            Ok(p) => spec_extract_round(items_view(items@), 2, TlvType::Salt, TlvType::PublicKey)
                == Ok::<(Seq<u8>, Seq<u8>), PairingError>((p.0@, p.1@)),
            Err(e) => spec_extract_round(items_view(items@), 2, TlvType::Salt, TlvType::PublicKey)
                == Err::<(Seq<u8>, Seq<u8>), PairingError>(e),
        }),
{
    extract_round(items, 2, TlvType::Salt, TlvType::PublicKey)
}

/// Validates the fourth handshake message: expects state 4 with the
/// server's proof and the encrypted data.
pub fn handle_m4(items: &Vec<(TlvType, Vec<u8>)>) -> (r: Result<(Vec<u8>, Vec<u8>), PairingError>)
    ensures
        (match r {
            Ok(p) => spec_extract_round(
                items_view(items@),
                4,
                TlvType::Proof,
                TlvType::EncryptedData,
            ) == Ok::<(Seq<u8>, Seq<u8>), PairingError>((p.0@, p.1@)),
            Err(e) => spec_extract_round(
                items_view(items@),
                4,
                TlvType::Proof,
                TlvType::EncryptedData,
            ) == Err::<(Seq<u8>, Seq<u8>), PairingError>(e),
        }),
{
    extract_round(items, 4, TlvType::Proof, TlvType::EncryptedData)
}

/// State-machine ordering: a response that declares any state other than
/// the expected one, and carries no error field, is rejected as a protocol
/// violation — whatever else it contains.
pub proof fn lemma_wrong_state_rejected(
    items: Seq<(TlvType, Seq<u8>)>,
    expected: u8,
    t1: TlvType,
    t2: TlvType,
)
    requires
        spec_field_first_byte(items, TlvType::Error) is None,
        spec_field_first_byte(items, TlvType::State) is Some,
        spec_field_first_byte(items, TlvType::State)->0 != expected,
    ensures
        spec_extract_round(items, expected, t1, t2) == Err::<(Seq<u8>, Seq<u8>), PairingError>(
            PairingError::ProtocolViolation,
        ),
{
}

// ---------------------------------------------------------------------------
// Outbound messages
// ---------------------------------------------------------------------------

/// The items of the first handshake message.
pub open spec fn spec_m1_items() -> Seq<(TlvType, Seq<u8>)> {
    seq![
        (TlvType::Method, seq![spec_method_code(PairingMethod::PairSetupWithAuth)]),
        (TlvType::State, seq![spec_state_code(PairingState::M1)]),
    ]
}

/// The items of the third handshake message, given the client's public key
/// and proof.
pub open spec fn spec_m3_items(a_pub: Seq<u8>, proof_bytes: Seq<u8>) -> Seq<(TlvType, Seq<u8>)> {
    seq![
        (TlvType::State, seq![spec_state_code(PairingState::M3)]),
        (TlvType::PublicKey, a_pub),
        (TlvType::Proof, proof_bytes),
    ]
}

/// Builds the first handshake message: the pairing method and state 1.
pub fn build_m1() -> (r: Vec<u8>)
    ensures
        r@ == spec_encode(spec_m1_items()),
{
    let mut writer = Tlv8Writer::new();
    let mut method: Vec<u8> = Vec::new();
    method.push(PairingMethod::PairSetupWithAuth.code());
    let mut state: Vec<u8> = Vec::new();
    state.push(PairingState::M1.code());
    writer.add(TlvType::Method, method.as_slice());
    writer.add(TlvType::State, state.as_slice());
    proof {
        let it0 = (TlvType::Method, method@);
        let it1 = (TlvType::State, state@);
        let e: Seq<(TlvType, Seq<u8>)> = Seq::empty();
        lemma_encode_push(e, it0);
        lemma_encode_push(e.push(it0), it1);
        assert(Seq::<u8>::empty() + chunk_bytes(TlvType::Method, method@) =~= chunk_bytes(
            TlvType::Method,
            method@,
        ));
        assert(e.push(it0).push(it1) =~= spec_m1_items());
        assert(spec_encode(e) == Seq::<u8>::empty());
    }
    writer.to_vec()
}

/// Builds the third handshake message: state 3, the client public key, the
/// client proof.
pub fn build_m3(client_public: &Vec<u8>, client_proof: &Vec<u8>) -> (r: Vec<u8>)
    ensures
        r@ == spec_encode(spec_m3_items(client_public@, client_proof@)),
{
    let mut writer = Tlv8Writer::new();
    let mut state: Vec<u8> = Vec::new();
    state.push(PairingState::M3.code());
    writer.add(TlvType::State, state.as_slice());
    writer.add(TlvType::PublicKey, client_public.as_slice());
    writer.add(TlvType::Proof, client_proof.as_slice());
    proof {
        let it0 = (TlvType::State, state@);
        let it1 = (TlvType::PublicKey, client_public@);
        let it2 = (TlvType::Proof, client_proof@);
        let e: Seq<(TlvType, Seq<u8>)> = Seq::empty();
        lemma_encode_push(e, it0);
        lemma_encode_push(e.push(it0), it1);
        lemma_encode_push(e.push(it0).push(it1), it2);
        assert(Seq::<u8>::empty() + chunk_bytes(TlvType::State, state@) =~= chunk_bytes(
            TlvType::State,
            state@,
        ));
        assert(e.push(it0).push(it1).push(it2) =~= spec_m3_items(client_public@, client_proof@));
        assert(spec_encode(e) == Seq::<u8>::empty());
    }
    writer.to_vec()
}

// ---------------------------------------------------------------------------
// The setup code and the SRP identity
// ---------------------------------------------------------------------------

/// A setup code is eight ASCII digits.
pub open spec fn setup_code_wf(code: Seq<u8>) -> bool {
    code.len() == 8 && forall|i: int| 0 <= i < 8 ==> is_dec_digit(#[trigger] code[i])
}

/// The canonical grouped form of a setup code, used as the SRP password.
pub open spec fn spec_format_setup_code(code: Seq<u8>) -> Seq<u8> {
    code.subrange(0, 3) + seq![45u8] + code.subrange(3, 5) + seq![45u8] + code.subrange(5, 8)
}

/// Reformats the eight-digit setup code to the grouped form, three-two-three
/// digits joined by dashes.
pub fn format_setup_code(code: &[u8]) -> (r: Vec<u8>)
    requires
        code@.len() == 8,
    ensures
        r@ == spec_format_setup_code(code@),
{
    let mut out: Vec<u8> = Vec::new();
    push_range(&mut out, code, 0, 3);
    out.push(45);
    push_range(&mut out, code, 3, 5);
    out.push(45);
    push_range(&mut out, code, 5, 8);
    proof {
        assert(out@ =~= spec_format_setup_code(code@));
    }
    out
}

/// The fixed SRP identity of the pair-setup handshake: the ASCII bytes of
/// `Pair-Setup`.
pub open spec fn spec_pairing_identity() -> Seq<u8> {
    seq![80u8, 97u8, 105u8, 114u8, 45u8, 83u8, 101u8, 116u8, 117u8, 112u8]
}

// ---------------------------------------------------------------------------
// The session state machine
// ---------------------------------------------------------------------------

/// Where a session stands: which inbound round it expects next, or that it
/// has ended.
#[derive(Debug, Clone, Copy, PartialEq, Eq, Structural)]
pub enum SessionPhase {
    /// The first request is out (or about to go out); state 2 is expected.
    AwaitM2,
    /// The third message is out; state 4 is expected.
    AwaitM4,
    /// The session ended; it accepts no further responses.
    Terminated,
}

/// One pair-setup attempt against one accessory: the setup code, the
/// ephemeral SRP secret drawn for this attempt alone, and what the earlier
/// rounds returned. Strictly sequential: each response is validated before
/// the next request is produced, and any failure terminates the session.
pub struct PairSetup {
    phase: SessionPhase,
    setup_code: Vec<u8>,
    secret: Vec<u8>,
    salt: Vec<u8>,
    server_public: Vec<u8>,
}

impl PairSetup {
    pub closed spec fn spec_phase(&self) -> SessionPhase {
        self.phase
    }

    pub closed spec fn spec_setup_code(&self) -> Seq<u8> {
        self.setup_code@
    }

    pub closed spec fn spec_secret(&self) -> Seq<u8> {
        self.secret@
    }

    pub closed spec fn spec_salt(&self) -> Seq<u8> {
        self.salt@
    }

    pub closed spec fn spec_server_public(&self) -> Seq<u8> {
        self.server_public@
    }

    /// The session holds an eight-digit setup code and a full-size secret.
    pub open spec fn wf(&self) -> bool {
        setup_code_wf(self.spec_setup_code()) && self.spec_secret().len() == 64
    }

    /// The session still accepts a response.
    pub open spec fn in_progress(&self) -> bool {
        self.spec_phase() != SessionPhase::Terminated
    }

    /// The SRP password this session uses: the grouped form of its setup
    /// code.
    pub open spec fn spec_password(&self) -> Seq<u8> {
        spec_format_setup_code(self.spec_setup_code())
    }

    /// Starts a fresh attempt: stores the setup code and draws a new
    /// ephemeral secret, never reused across attempts.
    pub fn new(setup_code: &str) -> (r: Self)
        requires
            setup_code_wf(setup_code.spec_bytes()),
        ensures
            r.wf(),
            r.spec_phase() == SessionPhase::AwaitM2,
            r.spec_setup_code() == setup_code.spec_bytes(),
    {
        let bytes = setup_code.as_bytes();
        let mut code: Vec<u8> = Vec::new();
        push_range(&mut code, bytes, 0, bytes.len());
        proof {
            assert(Seq::<u8>::empty() + bytes@.subrange(0, bytes@.len() as int) =~= bytes@);
        }
        PairSetup {
            phase: SessionPhase::AwaitM2,
            setup_code: code,
            secret: random_secret(),
            salt: Vec::new(),
            server_public: Vec::new(),
        }
    }

    /// The body of the session's first request.
    pub fn initial_request(&self) -> (r: Vec<u8>)
        ensures
            r@ == spec_encode(spec_m1_items()),
    {
        build_m1()
    }

    /// Feeds one transport response into the session. On success the next
    /// request body comes back; on any failure the session terminates and
    /// accepts nothing further. A non-success status aborts before any
    /// decoding; malformed bytes, a peer error field, a wrong or missing
    /// state, a missing field, a rejected SRP parameter and a wrong server
    /// proof each map to their own failure.
    pub fn handle_response(&mut self, status: u16, body: &[u8]) -> (r: Result<
        Vec<u8>,
        PairingError,
    >)
        requires
            old(self).wf(),
            old(self).in_progress(),
        ensures
            final(self).wf(),
            final(self).spec_setup_code() == old(self).spec_setup_code(),
            final(self).spec_secret() == old(self).spec_secret(),
            r is Err ==> final(self).spec_phase() == SessionPhase::Terminated,
            r is Ok ==> final(self).spec_phase() == SessionPhase::AwaitM4,
            (if status != 200 {
                r == Err::<Vec<u8>, PairingError>(PairingError::TransportError)
            } else {
                match spec_decode(body@) {
                    Err(ce) => r == Err::<Vec<u8>, PairingError>(PairingError::Codec(ce)),
                    Ok(items) => (match old(self).spec_phase() {
                        SessionPhase::AwaitM2 => (match spec_extract_round(
                            items,
                            2,
                            TlvType::Salt,
                            TlvType::PublicKey,
                        ) {
                            Err(pe) => r == Err::<Vec<u8>, PairingError>(pe),
                            Ok(sp) => if !srp_reply_ok(sp.1) {
                                r == Err::<Vec<u8>, PairingError>(PairingError::CryptoError)
                            } else {
                                r matches Ok(m3) && m3@ == spec_encode(
                                    spec_m3_items(
                                        srp_public_of(old(self).spec_secret()),
                                        srp_proof_of(
                                            old(self).spec_secret(),
                                            spec_pairing_identity(),
                                            old(self).spec_password(),
                                            sp.0,
                                            sp.1,
                                        ),
                                    ),
                                ) && final(self).spec_salt() == sp.0
                                    && final(self).spec_server_public() == sp.1
                            },
                        }),
                        SessionPhase::AwaitM4 => (match spec_extract_round(
                            items,
                            4,
                            TlvType::Proof,
                            TlvType::EncryptedData,
                        ) {
                            Err(pe) => r == Err::<Vec<u8>, PairingError>(pe),
                            Ok(pe2) => if srp_reply_ok(old(self).spec_server_public()) && pe2.0
                                == srp_server_proof_of(
                                old(self).spec_secret(),
                                spec_pairing_identity(),
                                old(self).spec_password(),
                                old(self).spec_salt(),
                                old(self).spec_server_public(),
                            ) {
                                r == Err::<Vec<u8>, PairingError>(PairingError::NotImplemented)
                            } else {
                                r == Err::<Vec<u8>, PairingError>(
                                    PairingError::AuthenticationFailed,
                                )
                            },
                        }),
                        SessionPhase::Terminated => false,
                    }),
                }
            }),
    {
        if status != 200 {
            self.phase = SessionPhase::Terminated;
            return Err(PairingError::TransportError);
        }
        let reader = Tlv8Reader::new(body);
        let items = match reader.read() {
            Ok(v) => v,
            Err(ce) => {
                self.phase = SessionPhase::Terminated;
                return Err(PairingError::Codec(ce));
            },
        };
        match self.phase {
            SessionPhase::AwaitM2 => {
                let round = match handle_m2(&items) {
                    Ok(p) => p,
                    Err(pe) => {
                        self.phase = SessionPhase::Terminated;
                        return Err(pe);
                    },
                };
                let salt = round.0;
                let server_public = round.1;
                let password = format_setup_code(self.setup_code.as_slice());
                let identity = pairing_identity();
                let proof_bytes = match srp_client_proof(
                    self.secret.as_slice(),
                    identity.as_slice(),
                    password.as_slice(),
                    salt.as_slice(),
                    server_public.as_slice(),
                ) {
                    Some(p) => p,
                    None => {
                        self.phase = SessionPhase::Terminated;
                        return Err(PairingError::CryptoError);
                    },
                };
                let a_pub = srp_client_public(self.secret.as_slice());
                let m3 = build_m3(&a_pub, &proof_bytes);
                self.salt = salt;
                self.server_public = server_public;
                self.phase = SessionPhase::AwaitM4;
                Ok(m3)
            },
            SessionPhase::AwaitM4 => {
                let round = match handle_m4(&items) {
                    Ok(p) => p,
                    Err(pe) => {
                        self.phase = SessionPhase::Terminated;
                        return Err(pe);
                    },
                };
                let server_proof = round.0;
                let password = format_setup_code(self.setup_code.as_slice());
                let identity = pairing_identity();
                let verified = srp_verify_server(
                    self.secret.as_slice(),
                    identity.as_slice(),
                    password.as_slice(),
                    self.salt.as_slice(),
                    self.server_public.as_slice(),
                    server_proof.as_slice(),
                );
                self.phase = SessionPhase::Terminated;
                if verified {
                    // The fifth message (the encrypted identifier and
                    // signature exchange) is an explicit extension point.
                    Err(PairingError::NotImplemented)
                } else {
                    Err(PairingError::AuthenticationFailed)
                }
            },
            SessionPhase::Terminated => vstd::pervasive::unreached(),
        }
    }
}

fn pairing_identity() -> (r: Vec<u8>)
    ensures
        r@ == spec_pairing_identity(),
{
    let mut v: Vec<u8> = Vec::new();
    v.push(80);
    v.push(97);
    v.push(105);
    v.push(114);
    v.push(45);
    v.push(83);
    v.push(101);
    v.push(116);
    v.push(117);
    v.push(112);
    proof {
        assert(v@ =~= spec_pairing_identity());
    }
    v
}

} // verus!
