//! What a direct HTTP action may send and what of the answer reaches the
//! Agent: the request schema, secret detection in answers, sensitive keys,
//! and the DER walk that finds a server certificate's public key for pinning.
use vstd::prelude::*;
use crate::authz_envelope::{base64_encode, base64_text, hex_lower, lower_hex, sha256, sha256_digest, str_bytes};
use crate::json::{clone_json, json_entries, json_view, JsonValue, JsonView};
use crate::text::{chars_contain, contains_text, str_eq, to_chars, from_chars};
use crate::json_text::{json_chars, json_text};
use vstd::utf8::encode_utf8;
use crate::web::{join_url, joined_url, parse_url, parsed_url, same_origin, UrlParts, UrlView};

verus! {

broadcast use vstd::string::group_string_axioms;

/// An error of a direct HTTP action, by its stable code.
#[derive(Clone, Copy, Debug)]
pub struct AgentHttpError {
    pub code: &'static str,
}

impl AgentHttpError {
    /// The error with the given code.
    pub fn new(code: &'static str) -> (e: Self)
        ensures
            e.code == code,
    {
        AgentHttpError { code }
    }
}

// ----------------------------------------------------------------------------
// Secret detection
// ----------------------------------------------------------------------------

/// `needle` occurs in `hay` at `at`.
pub open spec fn bytes_occur_at(hay: Seq<u8>, needle: Seq<u8>, at: int) -> bool {
    0 <= at && at + needle.len() <= hay.len() && hay.subrange(at, at + needle.len()) == needle
}

/// `needle` occurs somewhere in `hay`.
pub open spec fn bytes_contain(hay: Seq<u8>, needle: Seq<u8>) -> bool {
    exists|at: int| bytes_occur_at(hay, needle, at)
}

/// The three forms in which a secret is looked for: its UTF-8 bytes, their
/// standard Base64 text and their lower-case hexadecimal text.
pub open spec fn secret_forms(secret: Seq<char>) -> Seq<Seq<u8>> {
    let raw = encode_utf8(secret);
    seq![raw, encode_utf8(base64_text(raw)), encode_utf8(lower_hex(raw))]
}

/// Some non-empty secret occurs in `bytes` in one of its forms.
pub open spec fn spec_contains_secret(bytes: Seq<u8>, secrets: Seq<String>) -> bool {
    exists|i: int, k: int|
        0 <= i < secrets.len() && secrets[i]@.len() > 0 && 0 <= k < 3 && bytes_contain(bytes, #[trigger] secret_forms(secrets[i]@)[k])
}

/// The three forms of a secret as text.
pub open spec fn secret_texts(secret: Seq<char>) -> Seq<Seq<char>> {
    let raw = encode_utf8(secret);
    seq![secret, base64_text(raw), lower_hex(raw)]
}

/// Some non-empty secret occurs in `text` in one of its forms.
pub open spec fn spec_text_contains_secret(text: Seq<char>, secrets: Seq<String>) -> bool {
    exists|i: int, k: int|
        0 <= i < secrets.len() && secrets[i]@.len() > 0 && 0 <= k < 3 && contains_text(text, #[trigger] secret_texts(secrets[i]@)[k])
}

/// Whether `needle` occurs in `hay`.
pub fn bytes_contain_exec(hay: &[u8], needle: &[u8]) -> (r: bool)
    ensures
        r == bytes_contain(hay@, needle@),
{
    if needle.len() > hay.len() {
        assert(!bytes_contain(hay@, needle@));
        return false;
    }
    let last = hay.len() - needle.len();
    let mut at: usize = 0;
    while at <= last
        invariant
            last + needle.len() == hay.len(),
            at <= last,
            forall|k: int| 0 <= k < at ==> !bytes_occur_at(hay@, needle@, k),
        decreases last + 1 - at,
    {
        let mut j: usize = 0;
        let mut same = true;
        while j < needle.len()
            invariant
                at <= last,
                last + needle.len() == hay.len(),
                j <= needle.len(),
                same == forall|m: int| 0 <= m < j ==> hay@[at + m] == needle@[m],
            decreases needle.len() - j,
        {
            if hay[at + j] != needle[j] {
                same = false;
            }
            j += 1;
        }
        if same {
            assert(hay@.subrange(at as int, at + needle@.len()) =~= needle@);
            assert(bytes_occur_at(hay@, needle@, at as int));
            return true;
        }
        assert(!bytes_occur_at(hay@, needle@, at as int)) by {
            if bytes_occur_at(hay@, needle@, at as int) {
                let m = choose|m: int| 0 <= m < needle@.len() && hay@[at + m] != needle@[m];
                assert(hay@.subrange(at as int, at + needle@.len())[m] == hay@[at + m]);
            }
        }
        if at == last {
            assert(!bytes_contain(hay@, needle@)) by {
                if bytes_contain(hay@, needle@) {
                    let k = choose|k: int| bytes_occur_at(hay@, needle@, k);
                    assert(k <= last);
                }
            }
            return false;
        }
        at += 1;
    }
    false
}

/// Whether some non-empty secret occurs in `bytes` as itself, as Base64 or as
/// lower-case hexadecimal.
pub fn contains_secret_representation(bytes: &[u8], secrets: &Vec<String>) -> (r: bool)
    ensures
        r == spec_contains_secret(bytes@, secrets@),
{
    let mut i: usize = 0;
    while i < secrets.len()
        invariant
            i <= secrets.len(),
            forall|j: int, k: int|
                0 <= j < i && secrets@[j]@.len() > 0 && 0 <= k < 3 ==> !bytes_contain(bytes@, #[trigger] secret_forms(secrets@[j]@)[k]),
        decreases secrets.len() - i,
    {
        let secret = secrets[i].as_str();
        let chars = to_chars(secret);
        if chars.len() > 0 {
            let raw = str_bytes(secret);
            let encoded = base64_encode(raw.as_slice());
            let encoded_bytes = str_bytes(encoded.as_str());
            let hex = hex_lower(raw.as_slice());
            let hex_bytes = str_bytes(hex.as_str());
            let ghost forms = secret_forms(secrets@[i as int]@);
            assert(forms[0] == raw@);
            assert(forms[1] == encoded_bytes@);
            assert(forms[2] == hex_bytes@);
            if bytes_contain_exec(bytes, raw.as_slice()) || bytes_contain_exec(bytes, encoded_bytes.as_slice())
                || bytes_contain_exec(bytes, hex_bytes.as_slice()) {
                assert(spec_contains_secret(bytes@, secrets@)) by {
                    if bytes_contain(bytes@, forms[0]) {
                        assert(bytes_contain(bytes@, secret_forms(secrets@[i as int]@)[0]));
                    } else if bytes_contain(bytes@, forms[1]) {
                        assert(bytes_contain(bytes@, secret_forms(secrets@[i as int]@)[1]));
                    } else {
                        assert(bytes_contain(bytes@, secret_forms(secrets@[i as int]@)[2]));
                    }
                }
                return true;
            }
        }
        i += 1;
    }
    false
}

/// Whether some non-empty secret occurs in `output` as itself, as Base64 or
/// as lower-case hexadecimal.
pub fn contains_canary(output: &str, secrets: &Vec<String>) -> (r: bool)
    ensures
        r == spec_text_contains_secret(output@, secrets@),
{
    let text = to_chars(output);
    let mut i: usize = 0;
    while i < secrets.len()
        invariant
            i <= secrets.len(),
            text@ == output@,
            forall|j: int, k: int|
                0 <= j < i && secrets@[j]@.len() > 0 && 0 <= k < 3 ==> !contains_text(output@, #[trigger] secret_texts(secrets@[j]@)[k]),
        decreases secrets.len() - i,
    {
        let secret = secrets[i].as_str();
        let chars = to_chars(secret);
        if chars.len() > 0 {
            let raw = str_bytes(secret);
            let encoded = base64_encode(raw.as_slice());
            let hex = hex_lower(raw.as_slice());
            let encoded_chars = to_chars(encoded.as_str());
            let hex_chars = to_chars(hex.as_str());
            let ghost forms = secret_texts(secrets@[i as int]@);
            assert(forms[0] == chars@);
            assert(forms[1] == encoded_chars@);
            assert(forms[2] == hex_chars@);
            if chars_contain(&text, &chars) || chars_contain(&text, &encoded_chars) || chars_contain(&text, &hex_chars) {
                assert(spec_text_contains_secret(output@, secrets@)) by {
                    if contains_text(output@, forms[0]) {
                        assert(contains_text(output@, secret_texts(secrets@[i as int]@)[0]));
                    } else if contains_text(output@, forms[1]) {
                        assert(contains_text(output@, secret_texts(secrets@[i as int]@)[1]));
                    } else {
                        assert(contains_text(output@, secret_texts(secrets@[i as int]@)[2]));
                    }
                }
                return true;
            }
        }
        i += 1;
    }
    false
}

// ----------------------------------------------------------------------------
// Sensitive response keys
// ----------------------------------------------------------------------------

/// An ASCII letter or digit.
pub open spec fn is_ascii_alnum(c: char) -> bool {
    (48 <= (c as u32) && (c as u32) <= 57) || (65 <= (c as u32) && (c as u32) <= 90) || (97 <= (c as u32) && (c as u32) <= 122)
}

/// The lower-case form of an ASCII letter or digit.
pub open spec fn ascii_lower(c: char) -> char {
    if 65 <= (c as u32) && (c as u32) <= 90 {
        ((c as u32) + 32) as char
    } else {
        c
    }
}

/// A key with everything but ASCII letters and digits removed, in lower case.
pub open spec fn normalized_key(key: Seq<char>) -> Seq<char>
    decreases key.len(),
{
    if key.len() == 0 {
        Seq::empty()
    } else if is_ascii_alnum(key.last()) {
        normalized_key(key.drop_last()).push(ascii_lower(key.last()))
    } else {
        normalized_key(key.drop_last())
    }
}

/// The words that mark a response member as secret.
pub open spec fn sensitive_words() -> Seq<Seq<char>> {
    seq![
        "authorization"@, "accesstoken"@, "refreshtoken"@, "idtoken"@, "clientsecret"@, "password"@,
        "passphrase"@, "privatekey"@, "recoverycode"@, "setcookie"@, "otp"@,
    ]
}

/// A response member whose normalized key contains a sensitive word.
pub open spec fn spec_is_sensitive_key(key: Seq<char>) -> bool {
    exists|i: int| 0 <= i < sensitive_words().len() && contains_text(normalized_key(key), #[trigger] sensitive_words()[i])
}

fn sensitive_word_list() -> (r: Vec<&'static str>)
    ensures
        r@.len() == sensitive_words().len(),
        forall|i: int| 0 <= i < r@.len() ==> #[trigger] r@[i]@ == sensitive_words()[i],
{
    let r = vec![
        "authorization", "accesstoken", "refreshtoken", "idtoken", "clientsecret", "password",
        "passphrase", "privatekey", "recoverycode", "setcookie", "otp",
    ];
    assert(r@.len() == 11);
    r
}

/// Whether a response member's key names a secret (`access_token`,
/// `Set-Cookie`, `client.secret`, ...): ASCII letters and digits of the key,
/// lower-cased, contain one of the sensitive words.
pub fn is_sensitive_response_key(key: &str) -> (r: bool)
    ensures
        r == spec_is_sensitive_key(key@),
{
    let chars = to_chars(key);
    let mut normalized: Vec<char> = Vec::new();
    let mut i: usize = 0;
    while i < chars.len()
        invariant
            i <= chars.len(),
            chars@ == key@,
            normalized@ == normalized_key(key@.take(i as int)),
        decreases chars.len() - i,
    {
        let c = chars[i];
        let u = c as u32;
        assert(key@.take(i + 1).drop_last() =~= key@.take(i as int));
        assert(key@.take(i + 1).last() == c);
        if (u >= 48 && u <= 57) || (u >= 97 && u <= 122) {
            normalized.push(c);
        } else if u >= 65 && u <= 90 {
            let b: u8 = u as u8;
            let lower = (b + 32) as char;
            assert(lower == ascii_lower(c));
            normalized.push(lower);
        }
        i += 1;
    }
    assert(key@.take(chars@.len() as int) =~= key@);
    let words = sensitive_word_list();
    let mut k: usize = 0;
    while k < words.len()
        invariant
            k <= words.len(),
            words@.len() == sensitive_words().len(),
            forall|m: int| 0 <= m < words@.len() ==> #[trigger] words@[m]@ == sensitive_words()[m],
            normalized@ == normalized_key(key@),
            forall|m: int| 0 <= m < k ==> !contains_text(normalized_key(key@), #[trigger] sensitive_words()[m]),
        decreases words.len() - k,
    {
        let word = to_chars(words[k]);
        if chars_contain(&normalized, &word) {
            assert(contains_text(normalized_key(key@), sensitive_words()[k as int]));
            return true;
        }
        k += 1;
    }
    false
}

// ----------------------------------------------------------------------------
// DER walk for certificate pinning
// ----------------------------------------------------------------------------

/// One DER tag-length-value element: its tag, where it starts, where its
/// content starts and where it ends.
#[derive(Clone, Copy, Debug, PartialEq, Eq, Structural)]
pub struct DerTlv {
    pub tag: u8,
    pub start: usize,
    pub content_start: usize,
    pub end: usize,
}

/// The value of big-endian length bytes.
pub open spec fn be_value(bytes: Seq<u8>) -> nat
    decreases bytes.len(),
{
    if bytes.len() == 0 {
        0
    } else {
        be_value(bytes.drop_last()) * 256 + bytes.last() as nat
    }
}

/// The number of bytes of a `usize`.
pub open spec fn usize_bytes() -> int {
    (usize::BITS / 8) as int
}

/// The element that starts at `start`, if its header is well formed and its
/// content lies inside `input`.
pub open spec fn spec_der_tlv(input: Seq<u8>, start: int) -> Option<DerTlv> {
    if !(0 <= start && start + 1 < input.len()) {
        None
    } else {
        let tag = input[start];
        let first = input[start + 1];
        if first < 128 {
            let end = start + 2 + first;
            if end <= input.len() {
                Some(DerTlv { tag, start: start as usize, content_start: (start + 2) as usize, end: end as usize })
            } else {
                None
            }
        } else {
            let n = first - 128;
            if n == 0 || n > usize_bytes() || start + 2 + n > input.len() {
                None
            } else {
                let end = start + 2 + n + be_value(input.subrange(start + 2, start + 2 + n));
                if end <= input.len() {
                    Some(DerTlv { tag, start: start as usize, content_start: (start + 2 + n) as usize, end: end as usize })
                } else {
                    None
                }
            }
        }
    }
}

proof fn lemma_be_value_grows(bytes: Seq<u8>, i: int)
    requires
        0 <= i <= bytes.len(),
    ensures
        be_value(bytes.take(i)) <= be_value(bytes),
    decreases bytes.len() - i,
{
    if i < bytes.len() {
        lemma_be_value_grows(bytes, i + 1);
        assert(bytes.take(i + 1).drop_last() =~= bytes.take(i));
    } else {
        assert(bytes.take(i) =~= bytes);
    }
}

/// Reads the DER element that starts at `start`.
pub fn der_tlv(input: &[u8], start: usize) -> (r: Option<DerTlv>)
    ensures
        r == spec_der_tlv(input@, start as int),
{
    if start >= input.len() || start + 1 >= input.len() {
        return None;
    }
    let tag = input[start];
    let first = input[start + 1];
    if first & 0x80 == 0 {
        assert(first & 0x80 == 0 ==> first < 128) by (bit_vector);
        let content_start = start + 2;
        let length = first as usize;
        if length <= input.len() - content_start {
            return Some(DerTlv { tag, start, content_start, end: content_start + length });
        }
        return None;
    }
    assert(first & 0x80 != 0 ==> first >= 128 && first & 0x7f == first - 128) by (bit_vector);
    let n = (first & 0x7f) as usize;
    let size = (usize::BITS / 8) as usize;
    if n == 0 || n > size {
        return None;
    }
    if n > input.len() - (start + 2) {
        return None;
    }
    let ghost len_bytes = input@.subrange(start + 2, start + 2 + n);
    let mut length: usize = 0;
    let mut i: usize = 0;
    while i < n
        invariant
            i <= n,
            start + 1 < input.len(),
            first == input@[start + 1],
            first >= 128,
            n == first - 128,
            0 < n <= usize_bytes(),
            start + 2 + n <= input.len(),
            len_bytes == input@.subrange(start + 2, start + 2 + n),
            length == be_value(len_bytes.take(i as int)),
        decreases n - i,
    {
        let b = input[start + 2 + i];
        assert(len_bytes.take(i + 1).drop_last() =~= len_bytes.take(i as int));
        assert(len_bytes.take(i + 1).last() == b);
        assert(be_value(len_bytes.take(i + 1)) == length * 256 + b);
        match length.checked_mul(256) {
            Some(m) => match m.checked_add(b as usize) {
                Some(v) => {
                    length = v;
                },
                None => {
                    proof {
                        lemma_be_value_grows(len_bytes, i + 1);
                    }
                    return None;
                },
            },
            None => {
                proof {
                    lemma_be_value_grows(len_bytes, i + 1);
                }
                return None;
            },
        }
        i += 1;
    }
    assert(len_bytes.take(n as int) =~= len_bytes);
    let content_start = start + 2 + n;
    if length > input.len() - content_start {
        return None;
    }
    Some(DerTlv { tag, start, content_start, end: content_start + length })
}

/// The element reached from `cursor` by skipping `count` whole elements.
pub open spec fn skip_tlvs(input: Seq<u8>, cursor: int, count: nat) -> Option<int>
    decreases count,
{
    if count == 0 {
        Some(cursor)
    } else {
        match spec_der_tlv(input, cursor) {
            Some(t) => skip_tlvs(input, t.end as int, (count - 1) as nat),
            None => None,
        }
    }
}

/// The `SubjectPublicKeyInfo` that follows five elements from `cursor`: a
/// SEQUENCE that ends at or before `limit`.
pub open spec fn spki_after(c: Seq<u8>, cursor: int, limit: int) -> Option<(int, int)> {
    match skip_tlvs(c, cursor, 5) {
        None => None,
        Some(at) => match spec_der_tlv(c, at) {
            None => None,
            Some(spki) => if spki.tag == 0x30 && spki.end <= limit {
                Some((spki.start as int, spki.end as int))
            } else {
                None
            },
        },
    }
}

/// The `SubjectPublicKeyInfo` element of a DER X.509 certificate, as the
/// range of bytes it occupies: the certificate must be one outer SEQUENCE whose
/// `tbsCertificate` SEQUENCE holds, after an optional `[0]` version and five
/// further elements, a SEQUENCE that ends inside it.
pub open spec fn spec_certificate_spki(c: Seq<u8>) -> Option<(int, int)> {
    match spec_der_tlv(c, 0) {
        None => None,
        Some(outer) => if outer.tag != 0x30 || outer.end != c.len() {
            None
        } else {
            match spec_der_tlv(c, outer.content_start as int) {
                None => None,
                Some(tbs) => if tbs.tag != 0x30 || tbs.end > outer.end {
                    None
                } else {
                    match spec_der_tlv(c, tbs.content_start as int) {
                        None => None,
                        Some(first) => spki_after(
                            c,
                            if first.tag == 0xa0 { first.end as int } else { tbs.content_start as int },
                            tbs.end as int,
                        ),
                    }
                },
            }
        },
    }
}

/// The bytes of the `SubjectPublicKeyInfo` of a DER certificate, if the
/// certificate has the expected outer shape.
pub fn certificate_spki(certificate: &[u8]) -> (r: Option<Vec<u8>>)
    ensures
        match spec_certificate_spki(certificate@) {
            Some((s, e)) => r matches Some(v) && v@ == certificate@.subrange(s, e),
            None => r is None,
        },
{
    let outer = match der_tlv(certificate, 0) {
        Some(t) => t,
        None => return None,
    };
    if outer.tag != 0x30 || outer.end != certificate.len() {
        return None;
    }
    let tbs = match der_tlv(certificate, outer.content_start) {
        Some(t) => t,
        None => return None,
    };
    if tbs.tag != 0x30 || tbs.end > outer.end {
        return None;
    }
    let mut cursor = tbs.content_start;
    let first = match der_tlv(certificate, cursor) {
        Some(t) => t,
        None => return None,
    };
    if first.tag == 0xa0 {
        cursor = first.end;
    }
    let ghost base = cursor as int;
    assert(spec_certificate_spki(certificate@) == spki_after(certificate@, base, tbs.end as int));
    let mut k: usize = 0;
    while k < 5
        invariant
            k <= 5,
            spec_certificate_spki(certificate@) == spki_after(certificate@, base, tbs.end as int),
            skip_tlvs(certificate@, base, 5) == skip_tlvs(certificate@, cursor as int, (5 - k) as nat),
        decreases 5 - k,
    {
        match der_tlv(certificate, cursor) {
            Some(t) => {
                cursor = t.end;
            },
            None => {
                return None;
            },
        }
        k += 1;
    }
    let spki = match der_tlv(certificate, cursor) {
        Some(t) => t,
        None => return None,
    };
    if spki.tag == 0x30 && spki.end <= tbs.end {
        let mut out: Vec<u8> = Vec::new();
        let mut i: usize = spki.start;
        while i < spki.end
            invariant
                spki.start <= i <= spki.end,
                spki.end <= certificate@.len(),
                out@ == certificate@.subrange(spki.start as int, i as int),
            decreases spki.end - i,
        {
            out.push(certificate[i]);
            assert(out@ =~= certificate@.subrange(spki.start as int, i + 1));
            i += 1;
        }
        Some(out)
    } else {
        None
    }
}

/// `sha256:` and the lower-case hexadecimal SHA-256 digest of `bytes`.
pub open spec fn spki_pin(spki: Seq<u8>) -> Seq<char> {
    "sha256:"@ + lower_hex(sha256_digest(spki))
}

/// Checks the server certificate against the pinned key digests. With no
/// pins every certificate is accepted; otherwise the certificate must be
/// present, have a `SubjectPublicKeyInfo`, and its digest must be pinned.
pub fn verify_tls_pins(certificate: Option<&[u8]>, pins: &Vec<String>) -> (r: Result<(), AgentHttpError>)
    ensures
        pins@.len() == 0 ==> r is Ok,
        pins@.len() > 0 ==> match certificate {
            None => r matches Err(e) && e.code@ == "http-tls-pin-unavailable"@,
            Some(c) => match spec_certificate_spki(c@) {
                None => r matches Err(e) && e.code@ == "http-tls-pin-unavailable"@,
                Some((s, e)) => {
                    let pin = spki_pin(c@.subrange(s, e));
                    if exists|i: int| 0 <= i < pins@.len() && #[trigger] pins@[i]@ == pin {
                        r is Ok
                    } else {
                        r matches Err(err) && err.code@ == "http-tls-pin-mismatch"@
                    }
                },
            },
        },
{
    if pins.len() == 0 {
        return Ok(());
    }
    let cert = match certificate {
        Some(c) => c,
        None => {
            proof {
                reveal_strlit("http-tls-pin-unavailable");
            }
            return Err(AgentHttpError::new("http-tls-pin-unavailable"));
        },
    };
    let spki = match certificate_spki(cert) {
        Some(s) => s,
        None => {
            proof {
                reveal_strlit("http-tls-pin-unavailable");
            }
            return Err(AgentHttpError::new("http-tls-pin-unavailable"));
        },
    };
    let digest = sha256(spki.as_slice());
    let hex = hex_lower(digest.as_slice());
    let pin = crate::text::concat("sha256:", hex.as_str());
    let mut i: usize = 0;
    while i < pins.len()
        invariant
            i <= pins.len(),
            pins@.len() > 0,
            certificate == Some(cert),
            spec_certificate_spki(cert@) matches Some((s, e)) && pin@ == spki_pin(cert@.subrange(s, e)),
            forall|j: int| 0 <= j < i ==> #[trigger] pins@[j]@ != pin@,
        decreases pins.len() - i,
    {
        if str_eq(pins[i].as_str(), pin.as_str()) {
            assert(pins@[i as int]@ == pin@);
            return Ok(());
        }
        i += 1;
    }
    proof {
        reveal_strlit("http-tls-pin-mismatch");
    }
    Err(AgentHttpError::new("http-tls-pin-mismatch"))
}

// ----------------------------------------------------------------------------
// Request schema
// ----------------------------------------------------------------------------

/// Every member of an object is one of the request fields of the operation.
pub open spec fn keys_allowed(entries: Seq<(String, JsonValue)>, fields: Seq<String>) -> bool {
    forall|i: int| 0 <= i < entries.len() ==> name_listed(fields, #[trigger] entries[i].0@)
}

/// `name` is one of `list`.
pub open spec fn name_listed(list: Seq<String>, name: Seq<char>) -> bool {
    exists|j: int| 0 <= j < list.len() && #[trigger] list[j]@ == name
}

fn string_in(list: &Vec<String>, s: &str) -> (r: bool)
    ensures
        r == name_listed(list@, s@),
{
    let mut j: usize = 0;
    while j < list.len()
        invariant
            j <= list.len(),
            forall|k: int| 0 <= k < j ==> #[trigger] list@[k]@ != s@,
        decreases list.len() - j,
    {
        if str_eq(list[j].as_str(), s) {
            assert(list@[j as int]@ == s@);
            return true;
        }
        j += 1;
    }
    false
}

/// Checks the input of a named HTTP operation: an object whose members are
/// all request fields of the operation. The members are handed on unchanged.
pub fn validate_input(
    operation: &crate::policy::AgentHttpOperationPolicy,
    input: &JsonValue,
) -> (r: Result<Vec<(String, JsonValue)>, AgentHttpError>)
    ensures
        match *input {
            JsonValue::Object(entries) => if keys_allowed(entries@, operation.request_fields@) {
                r matches Ok(out) && json_view(JsonValue::Object(out)) == json_view(*input)
            } else {
                r matches Err(e) && e.code@ == "http-request-schema-invalid"@
            },
            _ => r matches Err(e) && e.code@ == "http-request-schema-invalid"@,
        },
{
    proof {
        reveal_strlit("http-request-schema-invalid");
    }
    let entries = match input {
        JsonValue::Object(entries) => entries,
        _ => return Err(AgentHttpError::new("http-request-schema-invalid")),
    };
    let mut i: usize = 0;
    while i < entries.len()
        invariant
            i <= entries.len(),
            *input == JsonValue::Object(*entries),
            forall|k: int| 0 <= k < i ==> name_listed(operation.request_fields@, #[trigger] entries@[k].0@),
        decreases entries.len() - i,
    {
        proof {
            reveal_strlit("http-request-schema-invalid");
        }
        if !string_in(&operation.request_fields, entries[i].0.as_str()) {
            assert(!name_listed(operation.request_fields@, entries@[i as int].0@));
            return Err(AgentHttpError::new("http-request-schema-invalid"));
        }
        i += 1;
    }
    assert(keys_allowed(entries@, operation.request_fields@));
    let copy = clone_json(input);
    assert(json_view(copy) == json_view(*input));
    match copy {
        JsonValue::Object(out) => Ok(out),
        _ => Err(AgentHttpError::new("http-request-schema-invalid")),
    }
}

// ----------------------------------------------------------------------------
// Untrusted answers
// ----------------------------------------------------------------------------

/// The deepest nesting of an answer that is passed on.
pub const MAX_RESPONSE_DEPTH: usize = 16;

/// The value that stands in for a sensitive member.
pub open spec fn redacted() -> JsonView {
    JsonView::String("[REDACTED]"@)
}

/// An untrusted answer value made safe at nesting `depth`, with `rem` array
/// items still allowed and `tr` recording whether anything was cut: objects
/// keep their members but redact sensitive ones, arrays keep as many leading
/// items as the budget allows, and anything nested deeper than
/// `MAX_RESPONSE_DEPTH` is refused (`None`). Also gives the budget and flag after it.
pub open spec fn san_value(v: JsonValue, depth: int, rem: nat, tr: bool) -> Option<(JsonView, nat, bool)>
    decreases v, 0nat,
{
    if depth > MAX_RESPONSE_DEPTH {
        None
    } else {
        match v {
            JsonValue::Object(entries) => match san_entries(entries, entries.len() as nat, depth, rem, tr) {
                Some((es, r2, t2)) => Some((JsonView::Object(es), r2, t2)),
                None => None,
            },
            JsonValue::Array(items) => {
                let take: nat = if items.len() < rem { items.len() as nat } else { rem };
                let t1 = tr || take < items.len();
                match san_items(items, take, depth + 1, (rem - take) as nat, t1) {
                    Some((xs, r2, t2)) => Some((JsonView::Array(xs), r2, t2)),
                    None => None,
                }
            },
            _ => Some((json_view(v), rem, tr)),
        }
    }
}

/// The first `n` members of an object at nesting `depth`, made safe in order.
pub open spec fn san_entries(entries: Vec<(String, JsonValue)>, n: nat, depth: int, rem: nat, tr: bool) -> Option<(Seq<(Seq<char>, JsonView)>, nat, bool)>
    decreases entries, n,
{
    if n == 0 || n > entries.len() {
        if n == 0 { Some((Seq::empty(), rem, tr)) } else { None }
    } else {
        match san_entries(entries, (n - 1) as nat, depth, rem, tr) {
            None => None,
            Some((es, r1, t1)) => {
                let key = entries[n - 1].0@;
                if spec_is_sensitive_key(key) {
                    Some((es.push((key, redacted())), r1, t1))
                } else {
                    match san_value(entries[n - 1].1, depth + 1, r1, t1) {
                        None => None,
                        Some((jv, r2, t2)) => Some((es.push((key, jv)), r2, t2)),
                    }
                }
            },
        }
    }
}

/// The first `n` items of an array, each at nesting `depth`, made safe in order.
pub open spec fn san_items(items: Vec<JsonValue>, n: nat, depth: int, rem: nat, tr: bool) -> Option<(Seq<JsonView>, nat, bool)>
    decreases items, n,
{
    if n == 0 || n > items.len() {
        if n == 0 { Some((Seq::empty(), rem, tr)) } else { None }
    } else {
        match san_items(items, (n - 1) as nat, depth, rem, tr) {
            None => None,
            Some((xs, r1, t1)) => match san_value(items[n - 1], depth, r1, t1) {
                None => None,
                Some((jv, r2, t2)) => Some((xs.push(jv), r2, t2)),
            },
        }
    }
}

proof fn lemma_san_entries_stays_none(entries: Vec<(String, JsonValue)>, k: nat, n: nat, depth: int, rem: nat, tr: bool)
    requires
        k <= n <= entries.len(),
        san_entries(entries, k, depth, rem, tr) is None,
    ensures
        san_entries(entries, n, depth, rem, tr) is None,
    decreases n - k,
{
    if k < n {
        lemma_san_entries_stays_none(entries, k, (n - 1) as nat, depth, rem, tr);
    }
}

proof fn lemma_san_items_stays_none(items: Vec<JsonValue>, k: nat, n: nat, depth: int, rem: nat, tr: bool)
    requires
        k <= n <= items.len(),
        san_items(items, k, depth, rem, tr) is None,
    ensures
        san_items(items, n, depth, rem, tr) is None,
    decreases n - k,
{
    if k < n {
        lemma_san_items_stays_none(items, k, (n - 1) as nat, depth, rem, tr);
    }
}

fn schema_invalid() -> (e: AgentHttpError)
    ensures
        e.code@ == "http-response-schema-invalid"@,
{
    proof {
        reveal_strlit("http-response-schema-invalid");
    }
    AgentHttpError::new("http-response-schema-invalid")
}

/// Makes the members of an untrusted object safe (see `san_value`).
pub fn sanitize_untrusted_object(
    entries: &Vec<(String, JsonValue)>,
    depth: usize,
    remaining: &mut usize,
    truncated: &mut bool,
) -> (r: Result<Vec<(String, JsonValue)>, AgentHttpError>)
    ensures
        depth > MAX_RESPONSE_DEPTH ==> (r matches Err(e) && e.code@ == "http-response-schema-invalid"@),
        depth <= MAX_RESPONSE_DEPTH ==> match san_entries(*entries, entries@.len() as nat, depth as int, *old(remaining) as nat, *old(truncated)) {
            Some((es, rem, tr)) => r matches Ok(out) && json_view(JsonValue::Object(out)) == JsonView::Object(es)
                && *final(remaining) == rem && *final(truncated) == tr,
            None => r matches Err(e) && e.code@ == "http-response-schema-invalid"@,
        },
    decreases entries, 1nat,
{
    if depth > MAX_RESPONSE_DEPTH {
        return Err(schema_invalid());
    }
    let ghost rem0 = *remaining as nat;
    let ghost tr0 = *truncated;
    let mut out: Vec<(String, JsonValue)> = Vec::new();
    let mut i: usize = 0;
    while i < entries.len()
        invariant
            i <= entries.len(),
            depth <= MAX_RESPONSE_DEPTH,
            rem0 == *old(remaining) as nat,
            tr0 == *old(truncated),
            san_entries(*entries, i as nat, depth as int, rem0, tr0) matches Some((es, rem, tr))
                && out@.len() == es.len()
                && (forall|k: int| 0 <= k < es.len() ==> (#[trigger] out@[k]).0@ == es[k].0 && json_view(out@[k].1) == es[k].1)
                && *remaining == rem && *truncated == tr,
        decreases entries.len() - i,
    {
        let key = entries[i].0.clone();
        if is_sensitive_response_key(key.as_str()) {
            proof {
                reveal_strlit("[REDACTED]");
            }
            let v = JsonValue::String(crate::text::copy_string("[REDACTED]"));
            out.push((key, v));
        } else {
            proof {
                assert(decreases_to!(*entries => entries[i as int]));
                assert(decreases_to!(entries[i as int] => entries[i as int].1));
            }
            let ghost before = (*remaining as nat, *truncated);
            match sanitize_untrusted_value(&entries[i].1, depth + 1, remaining, truncated) {
                Ok(v) => {
                    out.push((key, v));
                },
                Err(e) => {
                    proof {
                        lemma_san_entries_stays_none(*entries, (i + 1) as nat, entries@.len() as nat, depth as int, rem0, tr0);
                    }
                    return Err(e);
                },
            }
        }
        i += 1;
    }
    let r = out;
    proof {
        let tup = san_entries(*entries, entries@.len() as nat, depth as int, rem0, tr0)->0;
        let es = tup.0;
        if let JsonView::Object(a) = json_view(JsonValue::Object(r)) {
            assert(a =~= es);
        }
    }
    Ok(r)
}

/// Makes an untrusted answer value safe (see `san_value`).
pub fn sanitize_untrusted_value(
    value: &JsonValue,
    depth: usize,
    remaining: &mut usize,
    truncated: &mut bool,
) -> (r: Result<JsonValue, AgentHttpError>)
    ensures
        match san_value(*value, depth as int, *old(remaining) as nat, *old(truncated)) {
            Some((jv, rem, tr)) => r matches Ok(out) && json_view(out) == jv && *final(remaining) == rem && *final(truncated) == tr,
            None => r matches Err(e) && e.code@ == "http-response-schema-invalid"@,
        },
    decreases value, 2nat,
{
    if depth > MAX_RESPONSE_DEPTH {
        return Err(schema_invalid());
    }
    match value {
        JsonValue::Object(entries) => {
            proof {
                assert(decreases_to!(*value => (*value)->Object_0));
            }
            match sanitize_untrusted_object(entries, depth, remaining, truncated) {
                Ok(out) => Ok(JsonValue::Object(out)),
                Err(e) => Err(e),
            }
        },
        JsonValue::Array(items) => {
            let ghost rem_start = *remaining as nat;
            let ghost tr_start = *truncated;
            let take: usize = if items.len() < *remaining { items.len() } else { *remaining };
            if take < items.len() {
                *truncated = true;
            }
            *remaining = *remaining - take;
            let ghost rem1 = *remaining as nat;
            let ghost tr1 = *truncated;
            let mut out: Vec<JsonValue> = Vec::new();
            let mut i: usize = 0;
            while i < take
                invariant
                    i <= take <= items.len(),
                    *value == JsonValue::Array(*items),
                    depth <= MAX_RESPONSE_DEPTH,
                    rem_start == *old(remaining) as nat,
                    tr_start == *old(truncated),
                    take as nat == (if items.len() < rem_start { items.len() as nat } else { rem_start }),
                    rem1 == rem_start - take,
                    tr1 == (tr_start || take < items.len()),
                    san_items(*items, i as nat, depth + 1, rem1, tr1) matches Some((xs, rem, tr))
                        && out@.len() == xs.len()
                        && (forall|k: int| 0 <= k < xs.len() ==> json_view(#[trigger] out@[k]) == xs[k])
                        && *remaining == rem && *truncated == tr,
                decreases take - i,
            {
                proof {
                    assert(decreases_to!(*value => (*value)->Array_0));
                    assert(decreases_to!((*value)->Array_0 => (*value)->Array_0[i as int]));
                }
                match sanitize_untrusted_value(&items[i], depth + 1, remaining, truncated) {
                    Ok(v) => {
                        out.push(v);
                    },
                    Err(e) => {
                        proof {
                            lemma_san_items_stays_none(*items, (i + 1) as nat, take as nat, depth + 1, rem1, tr1);
                        }
                        return Err(e);
                    },
                }
                i += 1;
            }
            let r = JsonValue::Array(out);
            proof {
                let tup = san_items(*items, take as nat, depth + 1, rem1, tr1)->0;
                let xs = tup.0;
                if let JsonView::Array(a) = json_view(r) {
                    assert(a =~= xs);
                }
            }
            Ok(r)
        },
        _ => Ok(clone_json(value)),
    }
}

/// The fields that a named operation passes on: in the order the operation
/// lists them, those that are also allowed for the account and present in
/// the answer, each once; an array keeps at most `max_items` leading items,
/// and the flag records whether one was cut. Covers the first `n` operation fields.
pub open spec fn select_fields(
    entries: Seq<(String, JsonValue)>,
    op: Seq<String>,
    allowed: Seq<String>,
    max_items: nat,
    n: nat,
) -> (Seq<(Seq<char>, JsonView)>, bool)
    decreases n,
{
    if n == 0 {
        (Seq::empty(), false)
    } else {
        let prev = select_fields(entries, op, allowed, max_items, (n - 1) as nat);
        let field = op[n - 1]@;
        if !name_listed(allowed, field) || (exists|k: int| 0 <= k < prev.0.len() && #[trigger] prev.0[k].0 == field) {
            prev
        } else {
            match entries_get(entries, field) {
                None => prev,
                Some(v) => match json_view(v) {
                    JsonView::Array(xs) => if xs.len() > max_items {
                        (prev.0.push((field, JsonView::Array(xs.take(max_items as int)))), true)
                    } else {
                        (prev.0.push((field, json_view(v))), prev.1)
                    },
                    _ => (prev.0.push((field, json_view(v))), prev.1),
                },
            }
        }
    }
}

/// The list is exactly `["*"]`.
pub open spec fn is_wildcard(list: Seq<String>) -> bool {
    list.len() == 1 && list[0]@ == "*"@
}

/// The fields of an answer that reach the Agent, and whether anything was cut.
pub open spec fn spec_response_fields(
    body: JsonValue,
    op: Seq<String>,
    allowed: Seq<String>,
    max_items: nat,
) -> Option<(Seq<(Seq<char>, JsonView)>, bool)> {
    match body {
        JsonValue::Object(entries) => if is_wildcard(op) && is_wildcard(allowed) {
            match san_entries(entries, entries.len() as nat, 0, max_items, false) {
                Some((es, _rem, tr)) => Some((es, tr)),
                None => None,
            }
        } else {
            Some(select_fields(entries@, op, allowed, max_items, op.len()))
        },
        _ => None,
    }
}

use crate::json::entries_get;

fn is_wildcard_exec(list: &Vec<String>) -> (r: bool)
    ensures
        r == is_wildcard(list@),
{
    if list.len() != 1 {
        return false;
    }
    proof {
        reveal_strlit("*");
    }
    str_eq(list[0].as_str(), "*")
}

fn key_present(out: &Vec<(String, JsonValue)>, field: &str) -> (r: bool)
    ensures
        r == exists|k: int| 0 <= k < out@.len() && #[trigger] out@[k].0@ == field@,
{
    let mut k: usize = 0;
    while k < out.len()
        invariant
            k <= out.len(),
            forall|m: int| 0 <= m < k ==> #[trigger] out@[m].0@ != field@,
        decreases out.len() - k,
    {
        if str_eq(out[k].0.as_str(), field) {
            return true;
        }
        k += 1;
    }
    false
}

/// Picks the fields of an untrusted answer that reach the Agent: with the
/// operation and the account both allowing `*`, the whole object made safe
/// (see `san_value`, with `maximum_items` items in all); otherwise the
/// allowed operation fields (see `select_fields`). The answer must be an object.
pub fn select_response_fields(
    body: &JsonValue,
    operation_fields: &Vec<String>,
    allowed_fields: &Vec<String>,
    maximum_items: usize,
) -> (r: Result<(Vec<(String, JsonValue)>, bool), AgentHttpError>)
    ensures
        match spec_response_fields(*body, operation_fields@, allowed_fields@, maximum_items as nat) {
            Some((fs, tr)) => r matches Ok((out, t)) && json_view(JsonValue::Object(out)) == JsonView::Object(fs) && t == tr,
            None => r matches Err(e) && e.code@ == "http-response-schema-invalid"@,
        },
{
    let entries = match body {
        JsonValue::Object(entries) => entries,
        _ => return Err(schema_invalid()),
    };
    if is_wildcard_exec(operation_fields) && is_wildcard_exec(allowed_fields) {
        let mut remaining = maximum_items;
        let mut truncated = false;
        let out = sanitize_untrusted_object(entries, 0, &mut remaining, &mut truncated)?;
        return Ok((out, truncated));
    }
    let mut out: Vec<(String, JsonValue)> = Vec::new();
    let mut truncated = false;
    let mut i: usize = 0;
    while i < operation_fields.len()
        invariant
            i <= operation_fields.len(),
            *body == JsonValue::Object(*entries),
            select_fields(entries@, operation_fields@, allowed_fields@, maximum_items as nat, i as nat) matches (fs, tr)
                && out@.len() == fs.len()
                && (forall|k: int| 0 <= k < fs.len() ==> (#[trigger] out@[k]).0@ == fs[k].0 && json_view(out@[k].1) == fs[k].1)
                && truncated == tr,
        decreases operation_fields.len() - i,
    {
        let field = operation_fields[i].as_str();
        let ghost prev = select_fields(entries@, operation_fields@, allowed_fields@, maximum_items as nat, i as nat);
        if string_in(allowed_fields, field) {
            let present = key_present(&out, field);
            assert(present == exists|k: int| 0 <= k < prev.0.len() && #[trigger] prev.0[k].0 == field@) by {
                if present {
                    let k = choose|k: int| 0 <= k < out@.len() && #[trigger] out@[k].0@ == field@;
                    assert(prev.0[k].0 == field@);
                }
                if exists|k: int| 0 <= k < prev.0.len() && #[trigger] prev.0[k].0 == field@ {
                    let k = choose|k: int| 0 <= k < prev.0.len() && #[trigger] prev.0[k].0 == field@;
                    assert(out@[k].0@ == field@);
                }
            }
            if !present {
                match body.get(field) {
                    Some(v) => {
                        let mut c = clone_json(v);
                        let mut cut = false;
                        match &mut c {
                            JsonValue::Array(items) => {
                                if items.len() > maximum_items {
                                    items.truncate(maximum_items);
                                    cut = true;
                                }
                            },
                            _ => {},
                        }
                        proof {
                            match json_view(*v) {
                                JsonView::Array(xs) => {
                                    if xs.len() > maximum_items {
                                        if let JsonView::Array(ys) = json_view(c) {
                                            assert(ys =~= xs.take(maximum_items as int));
                                        }
                                    }
                                },
                                _ => {},
                            }
                        }
                        if cut {
                            truncated = true;
                        }
                        let key = operation_fields[i].clone();
                        out.push((key, c));
                    },
                    None => {},
                }
            }
        }
        proof {
            let next = select_fields(entries@, operation_fields@, allowed_fields@, maximum_items as nat, (i + 1) as nat);
            assert(out@.len() == next.0.len());
        }
        i += 1;
    }
    proof {
        let fs = select_fields(entries@, operation_fields@, allowed_fields@, maximum_items as nat, operation_fields@.len()).0;
        if let JsonView::Object(a) = json_view(JsonValue::Object(out)) {
            assert(a =~= fs);
        }
    }
    Ok((out, truncated))
}

/// The decimal digit of a value below 10.
pub open spec fn decimal_digit(d: nat) -> char {
    (48 + d) as char
}

/// The decimal text of a number.
pub open spec fn decimal(n: nat) -> Seq<char>
    decreases n,
{
    if n < 10 {
        seq![decimal_digit(n)]
    } else {
        decimal(n / 10).push(decimal_digit(n % 10))
    }
}

fn digit_char(d: u16) -> (c: char)
    requires
        d < 10,
    ensures
        c == decimal_digit(d as nat),
{
    let b: u8 = d as u8;
    (48u8 + b) as char
}

/// The decimal text of a number below 1000.
fn decimal_text(n: u16) -> (r: String)
    requires
        n < 1000,
    ensures
        r@ == decimal(n as nat),
{
    let mut v: Vec<char> = Vec::new();
    if n >= 100 {
        v.push(digit_char(n / 100));
    }
    if n >= 10 {
        v.push(digit_char((n / 10) % 10));
    }
    v.push(digit_char(n % 10));
    proof {
        reveal_with_fuel(decimal, 3);
        if n >= 100 {
            assert((n / 10) / 10 == n / 100);
            assert(decimal((n / 10) as nat) =~= seq![decimal_digit((n / 100) as nat), decimal_digit(((n / 10) % 10) as nat)]);
        } else if n >= 10 {
            assert(decimal((n / 10) as nat) =~= seq![decimal_digit(((n / 10) % 10) as nat)]);
        }
        assert(v@ =~= decimal(n as nat));
    }
    from_chars(&v)
}

/// The answer handed to the Agent for a sanitized response.
pub open spec fn safe_response_view(status: u16, fields: Seq<(Seq<char>, JsonView)>, truncated: bool) -> JsonView {
    JsonView::Object(seq![
        ("status"@, JsonView::Integer(status as i128)),
        ("statusClass"@, JsonView::String(decimal((status / 100) as nat) + "xx"@)),
        ("fields"@, JsonView::Object(fields)),
        ("truncated"@, JsonView::Bool(truncated)),
    ])
}

/// Completes the answer of a direct HTTP action once its fields are chosen:
/// `encoded` is their serialized JSON text, which must fit in `maximum_bytes`
/// and must not show any secret; the answer carries the status, its class
/// (`2xx`, ...), the fields and whether anything was cut.
pub fn finish_safe_response(
    status: u16,
    fields: Vec<(String, JsonValue)>,
    truncated: bool,
    encoded: &str,
    encoded_len: usize,
    maximum_bytes: usize,
    canaries: &Vec<String>,
) -> (r: Result<JsonValue, AgentHttpError>)
    ensures
        encoded_len > maximum_bytes ==> (r matches Err(e) && e.code@ == "http-response-too-large"@),
        encoded_len <= maximum_bytes && spec_text_contains_secret(encoded@, canaries@)
            ==> (r matches Err(e) && e.code@ == "http-response-secret-detected"@),
        encoded_len <= maximum_bytes && !spec_text_contains_secret(encoded@, canaries@)
            ==> (r matches Ok(v) && json_view(v) == safe_response_view(status, json_entries(fields@), truncated)),
{
    if encoded_len > maximum_bytes {
        proof {
            reveal_strlit("http-response-too-large");
        }
        return Err(AgentHttpError::new("http-response-too-large"));
    }
    if contains_canary(encoded, canaries) {
        proof {
            reveal_strlit("http-response-secret-detected");
        }
        return Err(AgentHttpError::new("http-response-secret-detected"));
    }
    let class_digits = decimal_text(status / 100);
    let class = crate::text::concat(class_digits.as_str(), "xx");
    let ghost fv = json_entries(fields@);
    let fields_value = JsonValue::Object(fields);
    assert(json_view(fields_value) == JsonView::Object(fv)) by {
        if let JsonView::Object(a) = json_view(fields_value) {
            assert(a =~= fv);
        }
    }
    let out: Vec<(String, JsonValue)> = vec![
        (crate::text::copy_string("status"), JsonValue::Integer(status as i128)),
        (crate::text::copy_string("statusClass"), JsonValue::String(class)),
        (crate::text::copy_string("fields"), fields_value),
        (crate::text::copy_string("truncated"), JsonValue::Bool(truncated)),
    ];
    let r = JsonValue::Object(out);
    proof {
        reveal_strlit("status");
        reveal_strlit("statusClass");
        reveal_strlit("fields");
        reveal_strlit("truncated");
        reveal_strlit("xx");
        let want = safe_response_view(status, fv, truncated)->Object_0;
        if let JsonView::Object(a) = json_view(r) {
            assert(a.len() == 4);
            assert(out@[0].0@ == "status"@);
            assert(out@[0].1 == JsonValue::Integer(status as i128));
            assert(json_view(out@[0].1) == JsonView::Integer(status as i128));
            assert(a[0] == (out@[0].0@, json_view(out@[0].1)));
            assert(a[0] == want[0]);
            assert(a[1] == (out@[1].0@, json_view(out@[1].1)));
            assert(a[1] == want[1]);
            assert(a[2] == want[2]);
            assert(a[3] == (out@[3].0@, json_view(out@[3].1)));
            assert(a[3] == want[3]);
            assert(a =~= want);
        }
    }
    Ok(r)
}

// ----------------------------------------------------------------------------
// The account-bound target
// ----------------------------------------------------------------------------

/// `s` without leading `c`.
pub open spec fn trim_leading(s: Seq<char>, c: char) -> Seq<char>
    decreases s.len(),
{
    if s.len() > 0 && s[0] == c {
        trim_leading(s.drop_first(), c)
    } else {
        s
    }
}

/// `s` without trailing `c`.
pub open spec fn trim_trailing(s: Seq<char>, c: char) -> Seq<char>
    decreases s.len(),
{
    if s.len() > 0 && s.last() == c {
        trim_trailing(s.drop_last(), c)
    } else {
        s
    }
}

/// `s` with ASCII upper-case letters lower-cased.
pub open spec fn ascii_lowercase(s: Seq<char>) -> Seq<char> {
    s.map_values(|c: char| ascii_lower(c))
}

/// The target of a direct HTTP action: the operation path resolved against
/// the account's origin, which must be a bare `http`/`https` origin (no user,
/// password, query or fragment, path `/`, with a host and a port); the path
/// must stay on that origin and be taken literally. Gives the URL, the host
/// without IPv6 brackets in lower case, and the port.
pub open spec fn spec_bound_target(origin: Seq<char>, path: Seq<char>) -> Result<(UrlView, Seq<char>, u16), Seq<char>> {
    match parsed_url(origin) {
        None => Err("http-policy-invalid"@),
        Some(base) => if !(base.scheme == "http"@ || base.scheme == "https"@) || base.username.len() != 0
            || base.password is Some || base.query is Some || base.fragment is Some || base.path != "/"@ {
            Err("http-policy-invalid"@)
        } else {
            match (base.host, base.port) {
                (Some(host), Some(port)) => match joined_url(origin, path) {
                    None => Err("http-policy-invalid"@),
                    Some(u) => if !same_origin(u, base) || u.path != path || u.query is Some {
                        Err("http-policy-invalid"@)
                    } else {
                        Ok((u, ascii_lowercase(trim_trailing(trim_leading(host, '['), ']')), port))
                    },
                },
                _ => Err("http-policy-invalid"@),
            }
        },
    }
}

fn trim_host(host: &str) -> (r: String)
    ensures
        r@ == ascii_lowercase(trim_trailing(trim_leading(host@, '['), ']')),
{
    let chars = to_chars(host);
    let mut start: usize = 0;
    assert(host@.skip(0) =~= host@);
    while start < chars.len() && chars[start] == '['
        invariant
            start <= chars.len(),
            chars@ == host@,
            trim_leading(host@, '[') == trim_leading(host@.skip(start as int), '['),
        decreases chars.len() - start,
    {
        assert(host@.skip(start as int).drop_first() =~= host@.skip(start + 1));
        start += 1;
    }
    let mut end: usize = chars.len();
    let ghost lead = host@.skip(start as int);
    assert(trim_leading(lead, '[') == lead);
    while end > start && chars[end - 1] == ']'
        invariant
            start <= end <= chars.len(),
            chars@ == host@,
            lead == host@.skip(start as int),
            trim_trailing(lead, ']') == trim_trailing(host@.subrange(start as int, end as int), ']'),
        decreases end - start,
    {
        assert(host@.subrange(start as int, end as int).drop_last() =~= host@.subrange(start as int, end - 1));
        end -= 1;
    }
    if start == 0 && end == chars.len() {
        assert(host@.subrange(0, end as int) =~= host@.skip(0));
    }
    assert(lead =~= host@.subrange(start as int, chars@.len() as int));
    let ghost mid = host@.subrange(start as int, end as int);
    assert(trim_trailing(mid, ']') == mid);
    let mut out: Vec<char> = Vec::new();
    let mut i: usize = start;
    while i < end
        invariant
            start <= i <= end <= chars.len(),
            chars@ == host@,
            mid == host@.subrange(start as int, end as int),
            out@ == ascii_lowercase(host@.subrange(start as int, i as int)),
        decreases end - i,
    {
        let c = chars[i];
        let u = c as u32;
        let lower = if u >= 65 && u <= 90 {
            let b: u8 = u as u8;
            (b + 32) as char
        } else {
            c
        };
        out.push(lower);
        assert(out@ =~= ascii_lowercase(host@.subrange(start as int, i + 1)));
        i += 1;
    }
    from_chars(&out)
}

/// Checks the target of a direct HTTP action (see `spec_bound_target`).
pub fn validate_bound_target(origin: &str, path: &str) -> (r: Result<(UrlParts, String, u16), AgentHttpError>)
    ensures
        match spec_bound_target(origin@, path@) {
            Ok((u, host, port)) => r matches Ok((v, h, p)) && v@ == u && h@ == host && p == port,
            Err(code) => r matches Err(e) && e.code@ == code,
        },
{
    proof {
        reveal_strlit("http-policy-invalid");
        reveal_strlit("http");
        reveal_strlit("https");
        reveal_strlit("/");
        reveal_strlit("");
        assert(""@ =~= Seq::<char>::empty());
    }
    let base = match parse_url(origin) {
        Some(b) => b,
        None => return Err(AgentHttpError::new("http-policy-invalid")),
    };
    let web_scheme = str_eq(base.scheme.as_str(), "http") || str_eq(base.scheme.as_str(), "https");
    let no_user = str_eq(base.username.as_str(), "");
    assert(no_user == (base@.username.len() == 0)) by {
        if base@.username.len() == 0 {
            assert(base@.username =~= ""@);
        }
    }
    let root_path = str_eq(base.path.as_str(), "/");
    if !web_scheme || !no_user || base.password.is_some() || base.query.is_some() || base.fragment.is_some() || !root_path {
        return Err(AgentHttpError::new("http-policy-invalid"));
    }
    let host = match &base.host {
        Some(h) => trim_host(h.as_str()),
        None => return Err(AgentHttpError::new("http-policy-invalid")),
    };
    let port = match base.port {
        Some(p) => p,
        None => return Err(AgentHttpError::new("http-policy-invalid")),
    };
    let url = match join_url(origin, path) {
        Some(u) => u,
        None => return Err(AgentHttpError::new("http-policy-invalid")),
    };
    let same = match (&url.origin, &base.origin) {
        (Some(a), Some(b)) => str_eq(a.as_str(), b.as_str()),
        _ => false,
    };
    if !same || !str_eq(url.path.as_str(), path) || url.query.is_some() {
        return Err(AgentHttpError::new("http-policy-invalid"));
    }
    Ok((url, host, port))
}


/// The answer of a direct HTTP action: the fields picked from the body (see
/// `select_response_fields`), refused when their compact JSON text (see
/// `json_text`) is missing, longer than
/// `maximum_bytes` in UTF-8 or holds a secret (see `finish_safe_response`).
pub fn build_safe_response(
    status: u16,
    body: &JsonValue,
    operation_fields: &Vec<String>,
    allowed_fields: &Vec<String>,
    maximum_bytes: usize,
    maximum_items: usize,
    canaries: &Vec<String>,
) -> (r: Result<JsonValue, AgentHttpError>)
    ensures
        match spec_response_fields(*body, operation_fields@, allowed_fields@, maximum_items as nat) {
            None => r matches Err(e) && e.code@ == "http-response-schema-invalid"@,
            Some((fs, truncated)) => match json_text(JsonView::Object(fs)) {
                None => r matches Err(e) && e.code@ == "http-response-schema-invalid"@,
                Some(t) => if encode_utf8(t).len() > maximum_bytes {
                    r matches Err(e) && e.code@ == "http-response-too-large"@
                } else if spec_text_contains_secret(t, canaries@) {
                    r matches Err(e) && e.code@ == "http-response-secret-detected"@
                } else {
                    r matches Ok(v) && json_view(v) == safe_response_view(status, fs, truncated)
                },
            },
        },
{
    let (fields, truncated) = match select_response_fields(body, operation_fields, allowed_fields, maximum_items) {
        Ok(picked) => picked,
        Err(e) => return Err(e),
    };
    let value = JsonValue::Object(fields);
    let chars = match json_chars(&value) {
        Some(c) => c,
        None => return Err(schema_invalid()),
    };
    let text = from_chars(&chars);
    let bytes = str_bytes(text.as_str());
    let fields = match value {
        JsonValue::Object(fields) => fields,
        _ => return Err(schema_invalid()),
    };
    proof {
        if let JsonView::Object(fs) = json_view(JsonValue::Object(fields)) {
            assert(json_entries(fields@) =~= fs);
        }
    }
    finish_safe_response(status, fields, truncated, text.as_str(), bytes.len(), maximum_bytes, canaries)
}


/// A response member is redacted exactly when its key, stripped to ASCII
/// letters and digits and lower-cased, contains one of `authorization`,
/// `accesstoken`, `refreshtoken`, `idtoken`, `clientsecret`, `password`,
/// `passphrase`, `privatekey`, `recoverycode`, `setcookie` or `otp`.
pub proof fn law_sensitive_keys_are_the_secret_words(key: Seq<char>)
    ensures
        spec_is_sensitive_key(key) <==> ({
            let n = normalized_key(key);
            ||| contains_text(n, "authorization"@)
            ||| contains_text(n, "accesstoken"@)
            ||| contains_text(n, "refreshtoken"@)
            ||| contains_text(n, "idtoken"@)
            ||| contains_text(n, "clientsecret"@)
            ||| contains_text(n, "password"@)
            ||| contains_text(n, "passphrase"@)
            ||| contains_text(n, "privatekey"@)
            ||| contains_text(n, "recoverycode"@)
            ||| contains_text(n, "setcookie"@)
            ||| contains_text(n, "otp"@)
        }),
{
    let w = sensitive_words();
    assert(w[0] == "authorization"@);
    assert(w[1] == "accesstoken"@);
    assert(w[2] == "refreshtoken"@);
    assert(w[3] == "idtoken"@);
    assert(w[4] == "clientsecret"@);
    assert(w[5] == "password"@);
    assert(w[6] == "passphrase"@);
    assert(w[7] == "privatekey"@);
    assert(w[8] == "recoverycode"@);
    assert(w[9] == "setcookie"@);
    assert(w[10] == "otp"@);
}

} // verus!
