//! The sealed envelope in which the persistent authorization rules are stored:
//! AES-256-GCM under a key that is bound to the Vault and the OS user, with
//! the binding repeated as associated data.
use vstd::prelude::*;
use crate::authz_rules::{rule_set_valid, spec_rule_set_valid, AgentAuthorizationRule};
use crate::text::{from_chars, str_eq, to_chars};
use aes_gcm::aead::{AeadInPlace, KeyInit};
use base64::Engine;
use sha2::Digest;

verus! {

broadcast use vstd::string::group_string_axioms;

/// The envelope format version that the store writes.
pub const STORE_VERSION: u8 = 2;
/// The length of an envelope key.
pub const KEY_BYTES: usize = 32;
/// The length of an envelope nonce.
pub const NONCE_BYTES: usize = 12;
/// The length of an envelope authentication tag.
pub const TAG_BYTES: usize = 16;
/// The largest store file that is read.
pub const MAX_STORE_BYTES: u64 = 512 * 1024;

/// The SHA-256 digest of `data` (`sha2::Sha256::digest`).
pub uninterp spec fn sha256_digest(data: Seq<u8>) -> Seq<u8>;

/// The standard Base64 text of `data` (`base64::engine::general_purpose::STANDARD.encode`).
pub uninterp spec fn base64_text(data: Seq<u8>) -> Seq<char>;

/// The bytes that standard Base64 `text` decodes to, or `None` when it is not
/// valid Base64 (`STANDARD.decode`).
pub uninterp spec fn base64_bytes(text: Seq<char>) -> Option<Seq<u8>>;

/// The ciphertext and tag of AES-256-GCM sealing `plaintext` under `key`,
/// `nonce` and `aad` (`Aes256Gcm::encrypt_in_place_detached`).
pub uninterp spec fn aes256gcm_seal(key: Seq<u8>, nonce: Seq<u8>, aad: Seq<u8>, plaintext: Seq<u8>) -> (Seq<u8>, Seq<u8>);

/// The plaintext of an AES-256-GCM ciphertext whose tag verifies, or `None`
/// (`Aes256Gcm::decrypt_in_place_detached`).
pub uninterp spec fn aes256gcm_open(key: Seq<u8>, nonce: Seq<u8>, aad: Seq<u8>, ciphertext: Seq<u8>, tag: Seq<u8>) -> Option<Seq<u8>>;

/// SHA-256 (`sha2::Sha256::digest`).
///
/// Trusted: the digest is the one named by `sha256_digest` and is 32 bytes long.
#[verifier::external_body]
pub(crate) fn sha256(data: &[u8]) -> (r: Vec<u8>)
    ensures
        r@ == sha256_digest(data@),
        r@.len() == 32,
{
    sha2::Sha256::digest(data).to_vec()
}

/// Standard Base64 encoding (`STANDARD.encode`).
///
/// Trusted: the text is the one named by `base64_text`, and decoding it gives
/// the bytes back.
#[verifier::external_body]
pub(crate) fn base64_encode(data: &[u8]) -> (r: String)
    ensures
        r@ == base64_text(data@),
        base64_bytes(r@) == Some(data@),
{
    base64::engine::general_purpose::STANDARD.encode(data)
}

/// Standard Base64 decoding (`STANDARD.decode`).
///
/// Trusted: the bytes are the ones named by `base64_bytes`.
#[verifier::external_body]
pub(crate) fn base64_decode(text: &str) -> (r: Option<Vec<u8>>)
    ensures
        match base64_bytes(text@) {
            Some(b) => r matches Some(v) && v@ == b,
            None => r is None,
        },
{
    match base64::engine::general_purpose::STANDARD.decode(text) {
        Ok(bytes) => Some(bytes),
        Err(_) => None,
    }
}

/// AES-256-GCM sealing with a detached tag (`Aes256Gcm::encrypt_in_place_detached`).
///
/// Trusted: with a 32-byte key and a 12-byte nonce, sealing succeeds unless the
/// plaintext or the associated data exceeds 2^36 bytes; the ciphertext has the
/// plaintext's length, the tag is 16 bytes, both are named by `aes256gcm_seal`,
/// and opening them with the same key, nonce and associated data gives the
/// plaintext back.
#[verifier::external_body]
pub(crate) fn aes256gcm_encrypt(key: &[u8], nonce: &[u8], aad: &[u8], plaintext: &[u8]) -> (r: Option<(Vec<u8>, Vec<u8>)>)
    requires
        key@.len() == 32,
        nonce@.len() == 12,
    ensures
        (plaintext@.len() <= 68719476736 && aad@.len() <= 68719476736) ==> r is Some,
        r is Some ==> plaintext@.len() <= 68719476736,
        r is Some ==> aad@.len() <= 68719476736,
        r matches Some(p) ==> p.0@ == aes256gcm_seal(key@, nonce@, aad@, plaintext@).0,
        r matches Some(p) ==> p.1@ == aes256gcm_seal(key@, nonce@, aad@, plaintext@).1,
        r matches Some(p) ==> p.0@.len() == plaintext@.len(),
        r matches Some(p) ==> p.1@.len() == 16,
        r matches Some(p) ==> aes256gcm_open(key@, nonce@, aad@, p.0@, p.1@) == Some(plaintext@),
{
    let cipher = aes_gcm::Aes256Gcm::new_from_slice(key).ok()?;
    let mut buffer = plaintext.to_vec();
    let nonce = aes_gcm::aead::generic_array::GenericArray::from_slice(nonce);
    match cipher.encrypt_in_place_detached(nonce, aad, &mut buffer) {
        Ok(tag) => Some((buffer, tag.to_vec())),
        Err(_) => None,
    }
}

/// AES-256-GCM opening with a detached tag (`Aes256Gcm::decrypt_in_place_detached`).
///
/// Trusted: the plaintext is the one named by `aes256gcm_open`.
#[verifier::external_body]
pub(crate) fn aes256gcm_decrypt(key: &[u8], nonce: &[u8], aad: &[u8], ciphertext: &[u8], tag: &[u8]) -> (r: Option<Vec<u8>>)
    requires
        key@.len() == 32,
        nonce@.len() == 12,
        tag@.len() == 16,
    ensures
        match aes256gcm_open(key@, nonce@, aad@, ciphertext@, tag@) {
            Some(p) => r matches Some(v) && v@ == p,
            None => r is None,
        },
{
    let cipher = aes_gcm::Aes256Gcm::new_from_slice(key).ok()?;
    let mut buffer = ciphertext.to_vec();
    let nonce = aes_gcm::aead::generic_array::GenericArray::from_slice(nonce);
    let tag = aes_gcm::aead::generic_array::GenericArray::from_slice(tag);
    match cipher.decrypt_in_place_detached(nonce, aad, &mut buffer, tag) {
        Ok(()) => Some(buffer),
        Err(_) => None,
    }
}

/// The stored envelope, with its binary fields in Base64.
#[derive(Clone, Debug)]
pub struct AuthorizationEnvelope {
    pub version: u8,
    pub credential_ref: String,
    pub nonce: String,
    pub authentication_tag: String,
    pub ciphertext: String,
}

/// What an envelope holds once it is opened.
#[derive(Clone, Debug)]
pub enum EnvelopeContent {
    /// A version-1 store, whose rules are no longer honoured.
    Legacy,
    /// The decrypted payload bytes.
    Payload(Vec<u8>),
}

/// The lower-case hexadecimal digit of a value below 16.
pub open spec fn lower_hex_digit(v: int) -> char {
    if v < 10 {
        (48 + v) as char
    } else {
        (97 + v - 10) as char
    }
}

/// Lower-case hexadecimal text of bytes (`{:x}`).
pub open spec fn lower_hex(data: Seq<u8>) -> Seq<char>
    decreases data.len(),
{
    if data.len() == 0 {
        Seq::empty()
    } else {
        lower_hex(data.drop_last()) + seq![lower_hex_digit((data.last() / 16) as int), lower_hex_digit((data.last() % 16) as int)]
    }
}

/// The UTF-8 bytes of an ASCII text (every character below 128).
pub open spec fn ascii_bytes(s: Seq<char>) -> Seq<u8> {
    s.map_values(|c: char| c as u8)
}

/// Lower-case hexadecimal text of bytes.
pub fn hex_lower(data: &[u8]) -> (r: String)
    ensures
        r@ == lower_hex(data@),
{
    let mut out: Vec<char> = Vec::new();
    let mut i: usize = 0;
    while i < data.len()
        invariant
            i <= data.len(),
            out@ == lower_hex(data@.take(i as int)),
        decreases data.len() - i,
    {
        let b = data[i];
        let high = b / 16;
        let low = b % 16;
        let hc = if high < 10 { (48u8 + high) as char } else { (97u8 + high - 10) as char };
        let lc = if low < 10 { (48u8 + low) as char } else { (97u8 + low - 10) as char };
        out.push(hc);
        out.push(lc);
        assert(data@.take(i + 1).drop_last() =~= data@.take(i as int));
        assert(out@ =~= lower_hex(data@.take(i + 1)));
        i += 1;
    }
    assert(data@.take(data@.len() as int) =~= data@);
    from_chars(&out)
}

/// The bytes of a string slice.
pub fn str_bytes(s: &str) -> (r: Vec<u8>)
    ensures
        r@ == vstd::utf8::encode_utf8(s@),
{
    vstd::slice::slice_to_vec(s.as_bytes())
}

fn append_bytes(dst: &mut Vec<u8>, src: &[u8])
    ensures
        final(dst)@ == old(dst)@ + src@,
{
    let mut i: usize = 0;
    while i < src.len()
        invariant
            i <= src.len(),
            dst@ == old(dst)@ + src@.take(i as int),
        decreases src.len() - i,
    {
        dst.push(src[i]);
        assert(dst@ =~= old(dst)@ + src@.take(i + 1));
        i += 1;
    }
    assert(src@.take(src@.len() as int) =~= src@);
}

/// The name under which the envelope key of a Vault namespace and OS user is
/// kept in the platform key store.
pub open spec fn spec_credential_ref(vault_namespace: Seq<char>, user_id: Seq<char>) -> Seq<char> {
    "agent-authorization-v2-"@ + lower_hex(sha256_digest(
        "vaultmesh-agent-authorization-key-v2"@.map_values(|c: char| c as u8) + vstd::utf8::encode_utf8(vault_namespace)
            + vstd::utf8::encode_utf8(user_id),
    ))
}

/// The associated data that binds an envelope to a Vault namespace and OS user.
pub open spec fn spec_aad(vault_namespace: Seq<char>, user_id: Seq<char>) -> Seq<u8> {
    vstd::utf8::encode_utf8("vaultmesh-agent-authorization-store-v2\0protocol-v2\0"@ + vault_namespace + "\0"@ + user_id)
}

/// The key-store name of the envelope key.
pub fn credential_ref(vault_namespace: &str, user_id: &str) -> (r: String)
    ensures
        r@ == spec_credential_ref(vault_namespace@, user_id@),
{
    let label = "vaultmesh-agent-authorization-key-v2";
    let mut data = str_bytes(label);
    proof {
        reveal_strlit("vaultmesh-agent-authorization-key-v2");
        vstd::utf8::is_ascii_chars_encode_utf8(label@);
        assert(data@ =~= label@.map_values(|c: char| c as u8));
    }
    append_bytes(&mut data, vault_namespace.as_bytes());
    append_bytes(&mut data, user_id.as_bytes());
    let digest = sha256(data.as_slice());
    let hex = hex_lower(digest.as_slice());
    let mut out = to_chars("agent-authorization-v2-");
    let h = to_chars(hex.as_str());
    let mut i: usize = 0;
    let ghost prefix = out@;
    while i < h.len()
        invariant
            i <= h.len(),
            out@ == prefix + h@.take(i as int),
        decreases h.len() - i,
    {
        out.push(h[i]);
        assert(out@ =~= prefix + h@.take(i + 1));
        i += 1;
    }
    assert(h@.take(h@.len() as int) =~= h@);
    from_chars(&out)
}

/// The associated data of the envelope.
pub fn aad(vault_namespace: &str, user_id: &str) -> (r: Vec<u8>)
    ensures
        r@ == spec_aad(vault_namespace@, user_id@),
{
    let head = "vaultmesh-agent-authorization-store-v2\0protocol-v2\0";
    let sep = "\0";
    let mut data = str_bytes(head);
    append_bytes(&mut data, vault_namespace.as_bytes());
    append_bytes(&mut data, sep.as_bytes());
    append_bytes(&mut data, user_id.as_bytes());
    proof {
        lemma_encode_utf8_concat(head@, vault_namespace@);
        lemma_encode_utf8_concat(head@ + vault_namespace@, sep@);
        lemma_encode_utf8_concat(head@ + vault_namespace@ + sep@, user_id@);
    }
    data
}

proof fn lemma_encode_utf8_concat(a: Seq<char>, b: Seq<char>)
    ensures
        vstd::utf8::encode_utf8(a + b) == vstd::utf8::encode_utf8(a) + vstd::utf8::encode_utf8(b),
    decreases a.len(),
{
    if a.len() > 0 {
        lemma_encode_utf8_concat(a.drop_first(), b);
        assert((a + b).drop_first() =~= a.drop_first() + b);
        assert((a + b)[0] == a[0]);
        assert(vstd::utf8::encode_scalar(a[0] as u32) + (vstd::utf8::encode_utf8(a.drop_first()) + vstd::utf8::encode_utf8(b))
            =~= (vstd::utf8::encode_scalar(a[0] as u32) + vstd::utf8::encode_utf8(a.drop_first())) + vstd::utf8::encode_utf8(b));
    } else {
        assert(a + b =~= b);
        assert(vstd::utf8::encode_utf8(a) =~= Seq::<u8>::empty());
        assert(Seq::<u8>::empty() + vstd::utf8::encode_utf8(b) =~= vstd::utf8::encode_utf8(b));
    }
}

/// The bytes of a Base64 field of exactly `n` decoded bytes.
pub fn decode_exact(value: &str, n: usize) -> (r: Option<Vec<u8>>)
    ensures
        match base64_bytes(value@) {
            Some(b) => if b.len() == n { r matches Some(v) && v@ == b } else { r is None },
            None => r is None,
        },
{
    match base64_decode(value) {
        Some(bytes) => if bytes.len() == n {
            Some(bytes)
        } else {
            None
        },
        None => None,
    }
}

/// The content of an opened envelope, in plain values.
pub open spec fn spec_open_envelope(
    version: u8,
    stored_ref: Seq<char>,
    nonce: Seq<char>,
    tag: Seq<char>,
    ciphertext: Seq<char>,
    expected_ref: Seq<char>,
    key: Option<Seq<u8>>,
    aad: Seq<u8>,
) -> Option<Option<Seq<u8>>> {
    if version == 1 {
        Some(None)
    } else if version != 2 || stored_ref != expected_ref {
        None
    } else {
        match (key, base64_bytes(nonce), base64_bytes(tag), base64_bytes(ciphertext)) {
            (Some(k), Some(n), Some(t), Some(c)) => if k.len() != 32 || n.len() != 12 || t.len() != 16 {
                None
            } else {
                match aes256gcm_open(k, n, aad, c, t) {
                    Some(p) => Some(Some(p)),
                    None => None,
                }
            },
            _ => None,
        }
    }
}

/// Opens a stored envelope: a version-1 store reads as no rules; a version-2
/// store must name `credential_ref`, and its ciphertext must verify under the
/// key (which the platform key store may not hold) and the associated data.
pub fn open_envelope(envelope: &AuthorizationEnvelope, credential_ref: &str, key: Option<&[u8]>, aad: &[u8]) -> (r: Result<EnvelopeContent, ()>)
    ensures
        match spec_open_envelope(
            envelope.version,
            envelope.credential_ref@,
            envelope.nonce@,
            envelope.authentication_tag@,
            envelope.ciphertext@,
            credential_ref@,
            match key {
                Some(k) => Some(k@),
                None => None,
            },
            aad@,
        ) {
            None => r is Err,
            Some(None) => r matches Ok(EnvelopeContent::Legacy),
            Some(Some(p)) => r matches Ok(EnvelopeContent::Payload(v)) && v@ == p,
        },
{
    if envelope.version == 1 {
        return Ok(EnvelopeContent::Legacy);
    }
    if envelope.version != STORE_VERSION || !str_eq(envelope.credential_ref.as_str(), credential_ref) {
        return Err(());
    }
    let key = match key {
        Some(k) => k,
        None => return Err(()),
    };
    let nonce = base64_decode(envelope.nonce.as_str());
    let tag = base64_decode(envelope.authentication_tag.as_str());
    let ciphertext = base64_decode(envelope.ciphertext.as_str());
    let (nonce, tag, ciphertext) = match (nonce, tag, ciphertext) {
        (Some(n), Some(t), Some(c)) => (n, t, c),
        _ => return Err(()),
    };
    if key.len() != KEY_BYTES || nonce.len() != NONCE_BYTES || tag.len() != TAG_BYTES {
        return Err(());
    }
    match aes256gcm_decrypt(key, nonce.as_slice(), aad, ciphertext.as_slice(), tag.as_slice()) {
        Some(p) => Ok(EnvelopeContent::Payload(p)),
        None => Err(()),
    }
}

/// Seals payload bytes into a version-2 envelope under `key` and `nonce`.
/// What a store reads is what it wrote: the envelope opens, under the same
/// credential name, key and associated data, to the sealed payload.
pub fn seal_envelope(credential_ref: &str, key: &[u8], nonce: &[u8], aad: &[u8], plaintext: &[u8]) -> (r: Result<AuthorizationEnvelope, ()>)
    requires
        key@.len() == 32,
        nonce@.len() == 12,
    ensures
        r is Ok <==> plaintext@.len() <= 68719476736 && aad@.len() <= 68719476736,
        r matches Ok(e) ==> {
            &&& e.version == 2
            &&& e.credential_ref@ == credential_ref@
            &&& e.nonce@ == base64_text(nonce@)
            &&& e.authentication_tag@ == base64_text(aes256gcm_seal(key@, nonce@, aad@, plaintext@).1)
            &&& e.ciphertext@ == base64_text(aes256gcm_seal(key@, nonce@, aad@, plaintext@).0)
        },
        r matches Ok(e) ==> spec_open_envelope(
            e.version,
            e.credential_ref@,
            e.nonce@,
            e.authentication_tag@,
            e.ciphertext@,
            credential_ref@,
            Some(key@),
            aad@,
        ) == Some(Some(plaintext@)),
{
    match aes256gcm_encrypt(key, nonce, aad, plaintext) {
        Some((ciphertext, tag)) => Ok(AuthorizationEnvelope {
            version: STORE_VERSION,
            credential_ref: credential_ref.to_string(),
            nonce: base64_encode(nonce),
            authentication_tag: base64_encode(tag.as_slice()),
            ciphertext: base64_encode(ciphertext.as_slice()),
        }),
        None => Err(()),
    }
}

/// Accepts the rules read from an opened envelope only when the whole set is
/// valid.
pub fn accept_loaded_rules(rules: Vec<AgentAuthorizationRule>) -> (r: Result<Vec<AgentAuthorizationRule>, ()>)
    ensures
        r is Ok <==> spec_rule_set_valid(rules@),
        r matches Ok(v) ==> v@ == rules@,
{
    if rule_set_valid(&rules) {
        Ok(rules)
    } else {
        Err(())
    }
}

/// The namespace of a Vault: `sha256:` and the hex digest of its canonical path.
pub fn vault_namespace_of(canonical_path: &str) -> (r: String)
    ensures
        r@ == "sha256:"@ + lower_hex(sha256_digest(
            "vaultmesh-vault-path-v1"@.map_values(|c: char| c as u8) + vstd::utf8::encode_utf8(canonical_path@),
        )),
{
    let label = "vaultmesh-vault-path-v1";
    let mut data = str_bytes(label);
    proof {
        reveal_strlit("vaultmesh-vault-path-v1");
        vstd::utf8::is_ascii_chars_encode_utf8(label@);
        assert(data@ =~= label@.map_values(|c: char| c as u8));
    }
    append_bytes(&mut data, canonical_path.as_bytes());
    let digest = sha256(data.as_slice());
    let hex = hex_lower(digest.as_slice());
    let mut out = to_chars("sha256:");
    let h = to_chars(hex.as_str());
    let mut i: usize = 0;
    let ghost prefix = out@;
    while i < h.len()
        invariant
            i <= h.len(),
            out@ == prefix + h@.take(i as int),
        decreases h.len() - i,
    {
        out.push(h[i]);
        assert(out@ =~= prefix + h@.take(i + 1));
        i += 1;
    }
    assert(h@.take(h@.len() as int) =~= h@);
    from_chars(&out)
}


proof fn lemma_lower_hex_shape(data: Seq<u8>)
    ensures
        lower_hex(data).len() == 2 * data.len(),
        forall|i: int| 0 <= i < lower_hex(data).len() ==> crate::policy::is_lower_hex_char(#[trigger] lower_hex(data)[i]),
    decreases data.len(),
{
    if data.len() > 0 {
        lemma_lower_hex_shape(data.drop_last());
        let hi = (data.last() / 16) as int;
        let lo = (data.last() % 16) as int;
        assert(crate::policy::is_lower_hex_char(lower_hex_digit(hi)));
        assert(crate::policy::is_lower_hex_char(lower_hex_digit(lo)));
        let h = lower_hex(data.drop_last());
        assert forall|i: int| 0 <= i < lower_hex(data).len() implies crate::policy::is_lower_hex_char(#[trigger] lower_hex(data)[i]) by {
            if i < h.len() {
                assert(lower_hex(data)[i] == h[i]);
            }
        }
    }
}

/// The identity of an executable: `sha256:` and the lower-case hexadecimal
/// SHA-256 digest of its bytes.
pub fn executable_identity(executable: &[u8]) -> (r: String)
    ensures
        r@ == "sha256:"@ + lower_hex(sha256_digest(executable@)),
        crate::policy::spec_valid_sha256_identity(r@),
{
    let digest = sha256(executable);
    let hex = hex_lower(digest.as_slice());
    let r = crate::text::concat("sha256:", hex.as_str());
    proof {
        reveal_strlit("sha256:");
        lemma_lower_hex_shape(digest@);
        assert(r@.subrange(0, 7) =~= "sha256:"@);
        assert forall|i: int| 7 <= i < 71 implies crate::policy::is_lower_hex_char(#[trigger] r@[i]) by {
            assert(r@[i] == lower_hex(digest@)[i - 7]);
        }
    }
    r
}

} // verus!
