use base64::engine::general_purpose::STANDARD as BASE64_STANDARD;
use base64::Engine as _;
use ed25519_dalek::{Signer, SigningKey};
use sha2::{Digest, Sha256};
use starforge::sep10::{
    account_from_secret, challenge_query, server_from_stellar_toml, sign_challenge, sign_challenge_with_secret,
    stellar_toml_url, unix_now, validate_challenge, ChallengeError, Sep10Server, StellarTomlFields, NONCE_BYTES,
    NONCE_ENCODED_LEN, PUBLIC_NETWORK_PASSPHRASE, WEB_AUTH_DOMAIN_DATA_NAME,
};
use std::str::FromStr;
use stellar_xdr::{
    BumpSequenceOp, BytesM, DataValue, DecoratedSignature, Limits, ManageDataOp, Memo,
    MuxedAccount, Operation, OperationBody, Preconditions, SequenceNumber,
    Signature as XdrSignature, SignatureHint, String64, StringM, TimeBounds, TimePoint,
    ReadXdr, Transaction, TransactionEnvelope, TransactionExt, TransactionSignaturePayload,
    TransactionSignaturePayloadTaggedTransaction, TransactionV1Envelope, Uint256, VecM, WriteXdr,
};

const TEST_PASSPHRASE: &str = "Test SDF Network ; September 2015";

fn signing_key(seed: u8) -> SigningKey {
    SigningKey::from_bytes(&[seed; 32])
}

fn strkey(key: &SigningKey) -> String {
    format!("{}", stellar_strkey::ed25519::PublicKey(key.verifying_key().to_bytes()))
}

fn secret(key: &SigningKey) -> String {
    let private = stellar_strkey::ed25519::PrivateKey(key.to_bytes());
    format!("{}", private.as_unredacted())
}

fn server_for(key: &SigningKey, endpoint: &str) -> Sep10Server {
    Sep10Server {
        home_domain: "testanchor.stellar.org".to_string(),
        signing_key: strkey(key),
        web_auth_endpoint: endpoint.to_string(),
        network_passphrase: TEST_PASSPHRASE.to_string(),
        web_auth_domain: None,
    }
}

fn payload_of(tx: &Transaction, passphrase: &str) -> Vec<u8> {
    TransactionSignaturePayload {
        network_id: stellar_xdr::Hash(Sha256::digest(passphrase.as_bytes()).into()),
        tagged_transaction: TransactionSignaturePayloadTaggedTransaction::Tx(tx.clone()),
    }
    .to_xdr(Limits::none())
    .unwrap()
}

fn decorate(key: &SigningKey, payload: &[u8]) -> DecoratedSignature {
    let public = key.verifying_key().to_bytes();
    DecoratedSignature {
        hint: SignatureHint([public[28], public[29], public[30], public[31]]),
        signature: XdrSignature(BytesM::try_from(key.sign(payload).to_bytes().to_vec()).unwrap()),
    }
}

/// Everything a challenge builder needs; `new` yields a valid challenge.
struct ChallengeSpec {
    server_key: SigningKey,
    client_account: String,
    seq_num: i64,
    min_time: u64,
    max_time: u64,
    data_name: String,
    data_value: Option<Vec<u8>>,
    memo: Option<u64>,
    extra_operations: Vec<(String, String, String)>,
    raw_operations: Vec<Operation>,
    sign_with_server: bool,
}

impl ChallengeSpec {
    fn new(server_key: SigningKey, client_account: &str) -> Self {
        let now = unix_now();
        Self {
            server_key,
            client_account: client_account.to_string(),
            seq_num: 0,
            min_time: now.saturating_sub(60),
            max_time: now + 900,
            data_name: "testanchor.stellar.org auth".to_string(),
            data_value: Some(BASE64_STANDARD.encode([7u8; NONCE_BYTES]).into_bytes()),
            memo: None,
            extra_operations: Vec::new(),
            raw_operations: Vec::new(),
            sign_with_server: true,
        }
    }

    fn build(&self) -> String {
        let mut operations = Vec::new();
        operations.push(manage_data(
            Some(self.client_account.clone()),
            &self.data_name,
            self.data_value.clone(),
        ));
        for (name, value, source) in &self.extra_operations {
            operations.push(manage_data(Some(source.clone()), name, Some(value.as_bytes().to_vec())));
        }
        operations.extend(self.raw_operations.iter().cloned());
        let tx = Transaction {
            source_account: MuxedAccount::Ed25519(Uint256(self.server_key.verifying_key().to_bytes())),
            fee: 100,
            seq_num: SequenceNumber(self.seq_num),
            cond: Preconditions::Time(TimeBounds {
                min_time: TimePoint(self.min_time),
                max_time: TimePoint(self.max_time),
            }),
            memo: match self.memo {
                Some(id) => Memo::Id(id),
                None => Memo::None,
            },
            operations: VecM::try_from(operations).unwrap(),
            ext: TransactionExt::V0,
        };
        let mut signatures = Vec::new();
        if self.sign_with_server {
            signatures.push(decorate(&self.server_key, &payload_of(&tx, TEST_PASSPHRASE)));
        }
        let envelope = TransactionEnvelope::Tx(TransactionV1Envelope {
            tx,
            signatures: VecM::try_from(signatures).unwrap(),
        });
        BASE64_STANDARD.encode(envelope.to_xdr(Limits::none()).unwrap())
    }
}

fn manage_data(source: Option<String>, name: &str, value: Option<Vec<u8>>) -> Operation {
    Operation {
        source_account: source.map(|account| {
            MuxedAccount::Ed25519(Uint256(
                stellar_strkey::ed25519::PublicKey::from_string(&account).unwrap().0,
            ))
        }),
        body: OperationBody::ManageData(ManageDataOp {
            data_name: String64(StringM::<64>::from_str(name).unwrap()),
            data_value: value.map(|raw| DataValue(BytesM::try_from(raw).unwrap())),
        }),
    }
}

fn valid_challenge(server_key: &SigningKey, client: &str) -> (Sep10Server, String) {
    let server = server_for(server_key, "https://testanchor.stellar.org/auth");
    let challenge = ChallengeSpec::new(server_key.clone(), client).build();
    (server, challenge)
}

#[test]
fn builds_the_well_known_url_over_https_for_public_domains() {
    assert_eq!(
        stellar_toml_url("anchor.example.com"),
        "https://anchor.example.com/.well-known/stellar.toml"
    );
    assert_eq!(
        stellar_toml_url("127.0.0.1:8000"),
        "http://127.0.0.1:8000/.well-known/stellar.toml"
    );
    assert_eq!(
        stellar_toml_url("localhost:3000"),
        "http://localhost:3000/.well-known/stellar.toml"
    );
}

#[test]
fn loopback_hosts_with_brackets_and_credentials_use_http() {
    assert_eq!(stellar_toml_url("[::1]:8000"), "http://[::1]:8000/.well-known/stellar.toml");
    assert_eq!(
        stellar_toml_url(" user@localhost "),
        "http://user@localhost/.well-known/stellar.toml"
    );
}

#[test]
fn validates_a_well_formed_challenge() {
    let server_key = signing_key(1);
    let client = strkey(&signing_key(2));
    let (server, challenge) = valid_challenge(&server_key, &client);
    let validated = validate_challenge(&challenge, &server, &client, None, unix_now()).unwrap();
    assert_eq!(validated.data_name, "testanchor.stellar.org auth");
    assert_eq!(validated.nonce, BASE64_STANDARD.encode([7u8; NONCE_BYTES]));
    assert_eq!(validated.operation_count, 1);
    assert_eq!(validated.client_account, client);
    assert!(validated.describe().iter().any(|(row, _)| row == "nonce"));
}

#[test]
fn rejects_non_zero_sequence_numbers() {
    let server_key = signing_key(1);
    let client = strkey(&signing_key(2));
    let server = server_for(&server_key, "https://testanchor.stellar.org/auth");
    let mut spec = ChallengeSpec::new(server_key, &client);
    spec.seq_num = 42;
    let err = validate_challenge(&spec.build(), &server, &client, None, unix_now()).unwrap_err();
    assert_eq!(err, ChallengeError::NonZeroSequence(42));
}

#[test]
fn rejects_a_different_home_domain() {
    let server_key = signing_key(1);
    let client = strkey(&signing_key(2));
    let server = server_for(&server_key, "https://testanchor.stellar.org/auth");
    let mut spec = ChallengeSpec::new(server_key, &client);
    spec.data_name = "evil.example.com auth".to_string();
    let err = validate_challenge(&spec.build(), &server, &client, None, unix_now()).unwrap_err();
    assert_eq!(
        err,
        ChallengeError::WrongDataName {
            expected: "testanchor.stellar.org auth".to_string(),
            found: "evil.example.com auth".to_string(),
        }
    );
}

#[test]
fn rejects_expired_and_inverted_time_bounds() {
    let server_key = signing_key(1);
    let client = strkey(&signing_key(2));
    let server = server_for(&server_key, "https://testanchor.stellar.org/auth");

    let mut spec = ChallengeSpec::new(server_key.clone(), &client);
    spec.max_time = unix_now() - 1;
    let err = validate_challenge(&spec.build(), &server, &client, None, unix_now()).unwrap_err();
    assert!(matches!(err, ChallengeError::Expired { .. }), "got {err:?}");

    let mut spec = ChallengeSpec::new(server_key, &client);
    spec.min_time = unix_now() + 600;
    spec.max_time = unix_now() - 600;
    let err = validate_challenge(&spec.build(), &server, &client, None, unix_now()).unwrap_err();
    assert!(matches!(err, ChallengeError::InvertedTimeBounds { .. }), "got {err:?}");
}

#[test]
fn rejects_a_challenge_that_is_not_valid_yet() {
    let server_key = signing_key(1);
    let client = strkey(&signing_key(2));
    let server = server_for(&server_key, "https://testanchor.stellar.org/auth");
    let mut spec = ChallengeSpec::new(server_key, &client);
    spec.min_time = 2_000;
    spec.max_time = 3_000;
    let err = validate_challenge(&spec.build(), &server, &client, None, 1_500).unwrap_err();
    assert_eq!(err, ChallengeError::NotYetValid { min_time: 2_000, now: 1_500 });
}

#[test]
fn rejects_a_short_nonce() {
    let server_key = signing_key(1);
    let client = strkey(&signing_key(2));
    let server = server_for(&server_key, "https://testanchor.stellar.org/auth");
    let mut spec = ChallengeSpec::new(server_key, &client);
    spec.data_value = Some(b"too-short".to_vec());
    let err = validate_challenge(&spec.build(), &server, &client, None, unix_now()).unwrap_err();
    assert_eq!(err, ChallengeError::InvalidNonceLength(9));
}

#[test]
fn rejects_a_nonce_that_is_not_base64() {
    let server_key = signing_key(1);
    let client = strkey(&signing_key(2));
    let server = server_for(&server_key, "https://testanchor.stellar.org/auth");
    let mut spec = ChallengeSpec::new(server_key, &client);
    spec.data_value = Some(vec![b'*'; NONCE_ENCODED_LEN]);
    let err = validate_challenge(&spec.build(), &server, &client, None, unix_now()).unwrap_err();
    assert!(matches!(err, ChallengeError::InvalidNonceEncoding(_)), "got {err:?}");
}

#[test]
fn rejects_a_missing_nonce() {
    let server_key = signing_key(1);
    let client = strkey(&signing_key(2));
    let server = server_for(&server_key, "https://testanchor.stellar.org/auth");
    let mut spec = ChallengeSpec::new(server_key, &client);
    spec.data_value = None;
    let err = validate_challenge(&spec.build(), &server, &client, None, unix_now()).unwrap_err();
    assert_eq!(err, ChallengeError::MissingNonce("testanchor.stellar.org auth".to_string()));
}

#[test]
fn rejects_a_missing_server_signature() {
    let server_key = signing_key(1);
    let client = strkey(&signing_key(2));
    let server = server_for(&server_key, "https://testanchor.stellar.org/auth");
    let mut spec = ChallengeSpec::new(server_key, &client);
    spec.sign_with_server = false;
    let err = validate_challenge(&spec.build(), &server, &client, None, unix_now()).unwrap_err();
    assert_eq!(err, ChallengeError::InvalidServerSignature(server.signing_key.clone()));
}

#[test]
fn rejects_a_signature_for_another_network() {
    let server_key = signing_key(1);
    let client = strkey(&signing_key(2));
    let mut server = server_for(&server_key, "https://testanchor.stellar.org/auth");
    server.network_passphrase = PUBLIC_NETWORK_PASSPHRASE.to_string();
    let challenge = ChallengeSpec::new(server_key, &client).build();
    let err = validate_challenge(&challenge, &server, &client, None, unix_now()).unwrap_err();
    assert_eq!(err, ChallengeError::InvalidServerSignature(server.signing_key.clone()));
}

#[test]
fn rejects_a_challenge_signed_by_the_wrong_server() {
    let client = strkey(&signing_key(2));
    let server = server_for(&signing_key(1), "https://testanchor.stellar.org/auth");
    let spec = ChallengeSpec::new(signing_key(9), &client);
    let err = validate_challenge(&spec.build(), &server, &client, None, unix_now()).unwrap_err();
    assert!(matches!(err, ChallengeError::WrongSourceAccount { .. }), "got {err:?}");
}

#[test]
fn rejects_a_wrong_client_operation_source() {
    let server_key = signing_key(1);
    let client = strkey(&signing_key(2));
    let server = server_for(&server_key, "https://testanchor.stellar.org/auth");
    let mut spec = ChallengeSpec::new(server_key, &client);
    spec.client_account = strkey(&signing_key(3));
    let err = validate_challenge(&spec.build(), &server, &client, None, unix_now()).unwrap_err();
    assert!(matches!(err, ChallengeError::WrongOperationSource { .. }), "got {err:?}");
}

#[test]
fn accepts_a_web_auth_domain_operation_and_rejects_a_foreign_one() {
    let server_key = signing_key(1);
    let client = strkey(&signing_key(2));
    let server = server_for(&server_key, "https://testanchor.stellar.org/auth");

    let mut spec = ChallengeSpec::new(server_key.clone(), &client);
    spec.extra_operations.push((
        WEB_AUTH_DOMAIN_DATA_NAME.to_string(),
        "testanchor.stellar.org".to_string(),
        strkey(&server_key),
    ));
    let validated = validate_challenge(&spec.build(), &server, &client, None, unix_now()).unwrap();
    assert_eq!(validated.web_auth_domain.as_deref(), Some("testanchor.stellar.org"));

    let mut spec = ChallengeSpec::new(server_key.clone(), &client);
    spec.extra_operations.push((
        WEB_AUTH_DOMAIN_DATA_NAME.to_string(),
        "evil.example.com".to_string(),
        strkey(&server_key),
    ));
    let err = validate_challenge(&spec.build(), &server, &client, None, unix_now()).unwrap_err();
    assert!(matches!(err, ChallengeError::WrongWebAuthDomain { .. }), "got {err:?}");
}

#[test]
fn accepts_reserved_server_manage_data_operations() {
    let server_key = signing_key(1);
    let client = strkey(&signing_key(2));
    let server = server_for(&server_key, "https://testanchor.stellar.org/auth");
    let mut spec = ChallengeSpec::new(server_key.clone(), &client);
    spec.extra_operations.push(("unexpected".to_string(), "value".to_string(), strkey(&server_key)));
    let validated = validate_challenge(&spec.build(), &server, &client, None, unix_now()).unwrap();
    assert_eq!(validated.operation_count, 2);
}

#[test]
fn records_the_client_domain_operation() {
    let server_key = signing_key(1);
    let client = strkey(&signing_key(2));
    let domain_account = strkey(&signing_key(5));
    let server = server_for(&server_key, "https://testanchor.stellar.org/auth");
    let mut spec = ChallengeSpec::new(server_key, &client);
    spec.extra_operations.push((
        "client_domain".to_string(),
        "wallet.example.com".to_string(),
        domain_account.clone(),
    ));
    let validated = validate_challenge(&spec.build(), &server, &client, None, unix_now()).unwrap();
    assert_eq!(validated.client_domain.as_deref(), Some(domain_account.as_str()));
    assert!(validated.describe().iter().any(|(row, _)| row == "client domain"));
}

#[test]
fn rejects_a_reserved_operation_owned_by_a_third_party() {
    let server_key = signing_key(1);
    let client = strkey(&signing_key(2));
    let server = server_for(&server_key, "https://testanchor.stellar.org/auth");
    let mut spec = ChallengeSpec::new(server_key, &client);
    spec.extra_operations.push(("reserved".to_string(), "value".to_string(), strkey(&signing_key(3))));
    let err = validate_challenge(&spec.build(), &server, &client, None, unix_now()).unwrap_err();
    assert!(matches!(err, ChallengeError::WrongOperationAccount { .. }), "got {err:?}");
}

#[test]
fn rejects_a_non_manage_data_operation_in_the_challenge() {
    let server_key = signing_key(1);
    let client = strkey(&signing_key(2));
    let server = server_for(&server_key, "https://testanchor.stellar.org/auth");
    let mut spec = ChallengeSpec::new(server_key, &client);
    spec.raw_operations.push(Operation {
        source_account: None,
        body: OperationBody::BumpSequence(BumpSequenceOp { bump_to: SequenceNumber(1) }),
    });
    let err = validate_challenge(&spec.build(), &server, &client, None, unix_now()).unwrap_err();
    assert_eq!(
        err,
        ChallengeError::UnexpectedOperation { index: 1, operation_type: "another operation type" }
    );
}

#[test]
fn rejects_a_memo_that_does_not_match_the_request() {
    let server_key = signing_key(1);
    let client = strkey(&signing_key(2));
    let server = server_for(&server_key, "https://testanchor.stellar.org/auth");
    let mut spec = ChallengeSpec::new(server_key, &client);
    spec.memo = Some(99);
    let err =
        validate_challenge(&spec.build(), &server, &client, Some(42), unix_now()).unwrap_err();
    assert_eq!(err, ChallengeError::WrongMemo { expected: 42, found: 99 });
}

#[test]
fn rejects_a_fee_bump_envelope() {
    let server_key = signing_key(1);
    let client = strkey(&signing_key(2));
    let server = server_for(&server_key, "https://testanchor.stellar.org/auth");
    let fake = BASE64_STANDARD.encode([0, 0, 0, 5, 0, 0, 0, 0]);
    let err = validate_challenge(&fake, &server, &client, None, unix_now()).unwrap_err();
    assert!(matches!(err, ChallengeError::MalformedXdr(_)), "got {err:?}");
}

#[test]
fn rejects_xdr_that_is_not_base64() {
    let server = server_for(&signing_key(1), "https://testanchor.stellar.org/auth");
    let err = validate_challenge("not base64!!", &server, "G", None, unix_now()).unwrap_err();
    assert!(matches!(err, ChallengeError::InvalidBase64(_)), "got {err:?}");
}

#[test]
fn derive_account_from_secret_key_matches_the_public_key() {
    let key = signing_key(4);
    assert_eq!(account_from_secret(&secret(&key)).unwrap(), strkey(&key));
    assert!(matches!(
        account_from_secret("SNOTAKEY"),
        Err(ChallengeError::InvalidSecretKey(m)) if m.starts_with("'SNOTAK' is not a valid S... strkey: ")
    ));
}

#[test]
fn signing_adds_a_client_signature_that_verifies() {
    let server_key = signing_key(1);
    let client_key = signing_key(2);
    let client = strkey(&client_key);
    let (server, challenge) = valid_challenge(&server_key, &client);
    let validated = validate_challenge(&challenge, &server, &client, None, unix_now()).unwrap();

    let signed = sign_challenge(&validated, &client_key.to_bytes()).unwrap();
    let bytes = BASE64_STANDARD.decode(signed.as_bytes()).unwrap();
    let decoded = TransactionEnvelope::from_xdr(bytes, Limits::none()).unwrap();
    let TransactionEnvelope::Tx(v1) = decoded else {
        panic!("signed challenge is not a v1 envelope");
    };
    assert_eq!(v1.signatures.len(), 2, "server + client signatures");

    let payload = payload_of(&v1.tx, TEST_PASSPHRASE);
    let client_signature = v1.signatures.last().unwrap();
    let raw: [u8; 64] = client_signature.signature.0.as_vec().clone().try_into().unwrap();
    client_key
        .verifying_key()
        .verify_strict(&payload, &ed25519_dalek::Signature::from_bytes(&raw))
        .expect("client signature must verify");
    // And the server's signature is still valid on the signed envelope.
    let server_raw: [u8; 64] = v1.signatures[0].signature.0.as_vec().clone().try_into().unwrap();
    assert!(server_key
        .verifying_key()
        .verify_strict(&payload, &ed25519_dalek::Signature::from_bytes(&server_raw))
        .is_ok());
}

#[test]
fn signing_with_a_secret_key_matches_signing_with_its_seed() {
    let server_key = signing_key(1);
    let client_key = signing_key(3);
    let client = strkey(&client_key);
    let (server, challenge) = valid_challenge(&server_key, &client);
    let validated = validate_challenge(&challenge, &server, &client, None, unix_now()).unwrap();
    let by_seed = sign_challenge(&validated, &client_key.to_bytes()).unwrap();
    let by_secret = sign_challenge_with_secret(&validated, &secret(&client_key)).unwrap();
    assert_eq!(by_seed, by_secret);
    assert_ne!(by_seed, challenge, "the signed envelope differs from the challenge");
    assert!(matches!(
        sign_challenge_with_secret(&validated, "SNOTAKEY"),
        Err(ChallengeError::InvalidSecretKey(m)) if m.starts_with("'SNOTAK' is not a valid S... strkey: ")
    ));
}

#[test]
fn signing_refuses_bytes_that_are_not_a_v1_envelope() {
    let server_key = signing_key(1);
    let client = strkey(&signing_key(2));
    let (server, challenge) = valid_challenge(&server_key, &client);
    let mut validated = validate_challenge(&challenge, &server, &client, None, unix_now()).unwrap();
    validated.xdr = vec![0, 0, 0, 9];
    assert_eq!(
        sign_challenge(&validated, &[5u8; 32]),
        Err(ChallengeError::UnsupportedEnvelope("not Tx"))
    );
}

fn toml_fields(key: Option<String>, endpoint: Option<&str>) -> StellarTomlFields {
    StellarTomlFields {
        signing_key: key,
        network_passphrase: None,
        web_auth_endpoint: endpoint.map(|e| e.to_string()),
        web_auth_domain: None,
    }
}

#[test]
fn stellar_toml_fields_give_a_server_and_default_the_passphrase() {
    let key = strkey(&signing_key(1));
    let server = server_from_stellar_toml(
        "anchor.example.com",
        &toml_fields(Some(key.clone()), Some("https://anchor.example.com/auth")),
    )
    .unwrap();
    assert_eq!(server.home_domain, "anchor.example.com");
    assert_eq!(server.network_passphrase, PUBLIC_NETWORK_PASSPHRASE);
    assert_eq!(server.auth_data_name(), "anchor.example.com auth");
    assert_eq!(server.known_domains(), vec!["anchor.example.com".to_string()]);
}

#[test]
fn stellar_toml_without_signing_key_or_https_is_refused() {
    let err = server_from_stellar_toml(
        "anchor.example.com",
        &toml_fields(None, Some("https://anchor.example.com/auth")),
    )
    .unwrap_err();
    assert!(err.contains("SIGNING_KEY"));
    let key = strkey(&signing_key(1));
    let err = server_from_stellar_toml(
        "anchor.example.com",
        &toml_fields(Some(key.clone()), Some("http://anchor.example.com/auth")),
    )
    .unwrap_err();
    assert!(err.contains("https"));
    let server = server_from_stellar_toml(
        "127.0.0.1",
        &toml_fields(Some(key), Some("http://127.0.0.1:8000/auth")),
    )
    .unwrap();
    assert!(server.known_domains().contains(&"127.0.0.1".to_string()));
}

#[test]
fn known_domains_add_endpoint_host_and_web_auth_domain_once() {
    let mut server = server_for(&signing_key(1), "https://auth.example.com/sep10");
    server.web_auth_domain = Some("auth.example.com".to_string());
    assert_eq!(
        server.known_domains(),
        vec!["testanchor.stellar.org".to_string(), "auth.example.com".to_string()]
    );
}

#[test]
fn challenge_query_names_account_domain_memo_and_client_domain() {
    let key = signing_key(6);
    let server = server_for(&signing_key(1), "https://testanchor.stellar.org/auth");
    let account = strkey(&key);
    let query = challenge_query(&server, &account, Some(42), Some("wallet.example.com")).unwrap();
    assert_eq!(
        query,
        vec![
            ("account".to_string(), account.clone()),
            ("home_domain".to_string(), "testanchor.stellar.org".to_string()),
            ("memo".to_string(), "42".to_string()),
            ("client_domain".to_string(), "wallet.example.com".to_string()),
        ]
    );
    assert_eq!(challenge_query(&server, &account, None, None).unwrap().len(), 2);
    assert_eq!(
        challenge_query(&server, "MABC", None, None).unwrap_err(),
        "invalid client account 'MABC': muxed accounts (M...) are not supported here"
    );
    assert_eq!(
        challenge_query(&server, "GNOPE", None, None).unwrap_err(),
        "invalid client account 'GNOPE': expected a G... ed25519 public key"
    );
}
