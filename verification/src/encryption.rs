//! The pattern vault: encryption and decryption of pattern strings under a
//! password-derived AES-128-GCM key, and PBKDF2 password hashing and
//! verification.
//!
//! An encrypted pattern is stored as `hex(iv)/hex(ciphertext)/hex(tag)` with
//! a fresh 12-byte IV per pattern and a 16-byte tag. The key is the
//! password's bytes zero-padded or truncated to 16 bytes.

use vstd::prelude::*;

use crate::hexcode::{
    hex_decode, hex_encode, hex_of, is_hex_seq, lemma_hex_of_is_hex, lemma_unhex_hex_of, unhex,
};
use crate::text::{chars_to_string, string_chars};
use crypto::aead::{AeadDecryptor, AeadEncryptor};
use crypto::aes::KeySize;
use crypto::aes_gcm::AesGcm;
use pbkdf2::password_hash::{PasswordHash, PasswordHasher, PasswordVerifier, SaltString};
use pbkdf2::Pbkdf2;
use vstd::string::{StrSliceExecFns, StringSliceAdditionalSpecFns};

verus! {

/// Why a decryption failed: a malformed blob (wrong segmentation, bad hex,
/// wrong IV or tag size), or rejection by the authentication tag.
#[derive(Clone, Copy, Debug, PartialEq, Eq, Structural)]
pub enum DecryptError {
    Malformed,
    Rejected,
}

/// The AES-128 key derived from a password: its bytes zero-padded to 16, or
/// truncated to the first 16.
pub open spec fn key_of(pw: Seq<u8>) -> Seq<u8> {
    if pw.len() >= 16 {
        pw.take(16)
    } else {
        pw + Seq::new((16 - pw.len()) as nat, |i: int| 0u8)
    }
}

/// What the AES-128-GCM counter-mode transform returns for a key, IV and
/// input; applied by encryption to the plaintext and by decryption to the
/// ciphertext.
pub uninterp spec fn aes_gcm_ctr(key: Seq<u8>, iv: Seq<u8>, data: Seq<u8>) -> Seq<u8>;

/// What the AES-128-GCM authentication tag is for a key, IV and ciphertext
/// (no additional authenticated data).
pub uninterp spec fn aes_gcm_tag(key: Seq<u8>, iv: Seq<u8>, ct: Seq<u8>) -> Seq<u8>;

/// Relies on crypto's AesGcm::new and AeadEncryptor::encrypt: the ciphertext
/// is the counter-mode transform of the plaintext (same length), and the tag
/// is the 16-byte GCM tag of the ciphertext. AesGcm::new accepts exactly a
/// 16-byte key (for AES-128) and a 12-byte nonce.
#[verifier::external_body]
fn aes_gcm_seal(key: &[u8], iv: &[u8], data: &[u8]) -> (r: (Vec<u8>, Vec<u8>))
    requires
        key@.len() == 16,
        iv@.len() == 12,
    ensures
        r.0@ == aes_gcm_ctr(key@, iv@, data@),
        r.0@.len() == data@.len(),
        r.1@ == aes_gcm_tag(key@, iv@, r.0@),
        r.1@.len() == 16,
{
    let mut cipher = AesGcm::new(KeySize::KeySize128, key, iv, &[]);
    let mut ct: Vec<u8> = vec![0u8; data.len()];
    let mut tag: Vec<u8> = vec![0u8; 16];
    cipher.encrypt(data, &mut ct, &mut tag);
    (ct, tag)
}

/// Relies on crypto's AesGcm::new and AeadDecryptor::decrypt: decryption
/// succeeds exactly when the supplied tag equals the GCM tag of the
/// ciphertext, and then returns the counter-mode transform of the
/// ciphertext. Counter mode XORs a keystream, so it is an involution:
/// applying it to a previous output under the same key and IV gives back
/// that output's input.
#[verifier::external_body]
fn aes_gcm_open(key: &[u8], iv: &[u8], ct: &[u8], tag: &[u8]) -> (r: Option<Vec<u8>>)
    requires
        key@.len() == 16,
        iv@.len() == 12,
    ensures
        r is Some <==> tag@ == aes_gcm_tag(key@, iv@, ct@),
        r matches Some(pt) ==> pt@ == aes_gcm_ctr(key@, iv@, ct@),
        r matches Some(pt) ==> forall|p: Seq<u8>|
            ct@ == aes_gcm_ctr(key@, iv@, p) ==> pt@ == p,
{
    let mut cipher = AesGcm::new(KeySize::KeySize128, key, iv, &[]);
    let mut pt: Vec<u8> = vec![0u8; ct.len()];
    if cipher.decrypt(ct, &mut pt, tag) {
        Some(pt)
    } else {
        None
    }
}

/// Relies on rand::random: one uniformly random byte. Nothing can be
/// promised of the value.
#[verifier::external_body]
fn random_byte() -> u8 {
    rand::random::<u8>()
}

/// What PBKDF2 password verification returns for a password and a PHC hash
/// string: `None` when the hash string does not parse, otherwise whether the
/// password matches.
pub uninterp spec fn phc_verify_of(pw: Seq<char>, phc: Seq<char>) -> Option<bool>;

/// Relies on pbkdf2's Pbkdf2::hash_password with a freshly drawn random
/// salt (rand::random, SaltString::encode_b64): with a 16-byte salt and
/// the default parameters hashing cannot fail, and the returned PHC string
/// verifies against the same password.
#[verifier::external_body]
pub fn hash_password(password: &str) -> (r: Option<String>)
    ensures
        r is Some,
        r matches Some(h) ==> phc_verify_of(password@, h@) == Some(true),
{
    let salt_bytes: [u8; 16] = rand::random();
    let salt = match SaltString::encode_b64(&salt_bytes) {
        Ok(s) => s,
        Err(_) => return None,
    };
    match Pbkdf2.hash_password(password.as_bytes(), &salt) {
        Ok(h) => Some(h.to_string()),
        Err(_) => None,
    }
}

/// Relies on password_hash's PasswordHash::new and Pbkdf2::verify_password:
/// `None` when the stored hash string does not parse, otherwise whether the
/// password matches the hash. The outcome depends only on the arguments.
#[verifier::external_body]
pub fn verify_password(password: &str, password_hash: &str) -> (r: Option<bool>)
    ensures
        r == phc_verify_of(password@, password_hash@),
{
    match PasswordHash::new(password_hash) {
        Ok(parsed) => Some(Pbkdf2.verify_password(password.as_bytes(), &parsed).is_ok()),
        Err(_) => None,
    }
}

/// Derives the AES-128 key bytes from a password string: zero-padded or
/// truncated to exactly 16 bytes.
pub fn get_valid_key(key: &str) -> (r: Vec<u8>)
    ensures
        r@ == key_of(key.spec_bytes()),
        r@.len() == 16,
{
    let mut bytes = key.as_bytes_vec();
    if bytes.len() >= 16 {
        bytes.truncate(16);
        proof {
            assert(bytes@ =~= key_of(key.spec_bytes()));
        }
        bytes
    } else {
        let ghost orig = bytes@;
        while bytes.len() < 16
            invariant
                orig.len() < 16,
                orig.len() <= bytes@.len() <= 16,
                bytes@ == orig + Seq::new((bytes@.len() - orig.len()) as nat, |i: int| 0u8),
            decreases 16 - bytes@.len(),
        {
            bytes.push(0u8);
            proof {
                assert(bytes@ =~= orig + Seq::new(
                    (bytes@.len() - orig.len()) as nat,
                    |i: int| 0u8,
                ));
            }
        }
        proof {
            assert(bytes@ =~= key_of(key.spec_bytes()));
        }
        bytes
    }
}

/// Fresh random bytes for an IV.
fn get_iv(size: usize) -> (iv: Vec<u8>)
    ensures
        iv@.len() == size,
{
    let mut iv: Vec<u8> = Vec::new();
    while iv.len() < size
        invariant
            iv@.len() <= size,
        decreases size - iv@.len(),
    {
        iv.push(random_byte());
    }
    iv
}

/// Splitting a character sequence on a separator: the list of segments
/// between separator occurrences (one more segment than separators).
pub open spec fn split_all(s: Seq<char>, sep: char) -> Seq<Seq<char>>
    decreases s.len(),
{
    if s.len() == 0 {
        seq![Seq::<char>::empty()]
    } else if s.last() == sep {
        split_all(s.drop_last(), sep).push(Seq::empty())
    } else {
        let r = split_all(s.drop_last(), sep);
        r.update(r.len() - 1, r.last().push(s.last()))
    }
}

pub proof fn lemma_split_all_nonempty(s: Seq<char>, sep: char)
    ensures
        split_all(s, sep).len() >= 1,
    decreases s.len(),
{
    if s.len() > 0 {
        lemma_split_all_nonempty(s.drop_last(), sep);
    }
}

/// More input can only keep or grow the number of segments.
proof fn lemma_split_all_len_monotone(s: Seq<char>, sep: char, i: int)
    requires
        0 <= i <= s.len(),
    ensures
        split_all(s.take(i), sep).len() <= split_all(s, sep).len(),
    decreases s.len() - i,
{
    if i < s.len() {
        lemma_split_all_len_monotone(s, sep, i + 1);
        let t = s.take(i + 1);
        assert(t.drop_last() =~= s.take(i));
        lemma_split_all_nonempty(s.take(i), sep);
    } else {
        assert(s.take(i) =~= s);
    }
}

/// Appending a separator ends the current segment and starts an empty one.
proof fn lemma_split_all_push_sep(s: Seq<char>, sep: char)
    ensures
        split_all(s.push(sep), sep) == split_all(s, sep).push(Seq::empty()),
{
    let t = s.push(sep);
    assert(t.drop_last() =~= s);
}

/// Appending a non-separator character extends the last segment.
proof fn lemma_split_all_push_other(s: Seq<char>, sep: char, c: char)
    requires
        c != sep,
    ensures
        ({
            let r = split_all(s, sep);
            split_all(s.push(c), sep) == r.update(r.len() - 1, r.last().push(c))
        }),
{
    let t = s.push(c);
    assert(t.drop_last() =~= s);
}

/// Appending separator-free text extends the last segment by that text.
proof fn lemma_split_all_append_nosep(s: Seq<char>, t: Seq<char>, sep: char)
    requires
        forall|i: int| 0 <= i < t.len() ==> t[i] != sep,
    ensures
        ({
            let r = split_all(s, sep);
            split_all(s + t, sep) == r.update(r.len() - 1, r.last() + t)
        }),
    decreases t.len(),
{
    let r = split_all(s, sep);
    lemma_split_all_nonempty(s, sep);
    if t.len() == 0 {
        assert(s + t =~= s);
        assert(r.last() + t =~= r.last());
        assert(r.update(r.len() - 1, r.last() + t) =~= r);
    } else {
        lemma_split_all_append_nosep(s, t.drop_last(), sep);
        assert(s + t =~= (s + t.drop_last()).push(t.last()));
        lemma_split_all_push_other(s + t.drop_last(), sep, t.last());
        let r1 = split_all(s + t.drop_last(), sep);
        assert(r1.last() == r.last() + t.drop_last());
        assert(r1.last().push(t.last()) =~= r.last() + t);
        assert(split_all(s + t, sep) == r1.update(r1.len() - 1, r1.last().push(t.last())));
        assert(split_all(s + t, sep) =~~= r.update(r.len() - 1, r.last() + t));
    }
}

/// Splitting `a/b/c` (with `a`, `b`, `c` separator-free) yields exactly
/// `[a, b, c]`.
pub proof fn lemma_split_all_three(a: Seq<char>, b: Seq<char>, c: Seq<char>, sep: char)
    requires
        forall|i: int| 0 <= i < a.len() ==> a[i] != sep,
        forall|i: int| 0 <= i < b.len() ==> b[i] != sep,
        forall|i: int| 0 <= i < c.len() ==> c[i] != sep,
    ensures
        split_all(a + seq![sep] + b + seq![sep] + c, sep) == seq![a, b, c],
{
    let e = Seq::<char>::empty();
    assert(split_all(e, sep) == seq![e]);
    assert(e + a =~= a);
    lemma_split_all_append_nosep(e, a, sep);
    assert(split_all(a, sep) =~= seq![a]);
    assert(a.push(sep) =~= a + seq![sep]);
    lemma_split_all_push_sep(a, sep);
    assert(split_all(a + seq![sep], sep) =~= seq![a, e]);
    lemma_split_all_append_nosep(a + seq![sep], b, sep);
    assert(e + b =~= b);
    assert(split_all(a + seq![sep] + b, sep) =~= seq![a, b]);
    assert((a + seq![sep] + b).push(sep) =~= a + seq![sep] + b + seq![sep]);
    lemma_split_all_push_sep(a + seq![sep] + b, sep);
    assert(split_all(a + seq![sep] + b + seq![sep], sep) =~= seq![a, b, e]);
    lemma_split_all_append_nosep(a + seq![sep] + b + seq![sep], c, sep);
    assert(e + c =~= c);
    assert(split_all(a + seq![sep] + b + seq![sep] + c, sep) =~= seq![a, b, c]);
}

/// Splits a blob into exactly three `/`-separated segments, failing when the
/// number of segments differs.
fn split3(s: &Vec<char>) -> (r: Option<(Vec<char>, Vec<char>, Vec<char>)>)
    ensures
        r is Some <==> split_all(s@, '/').len() == 3,
        r matches Some((a, b, c)) ==> split_all(s@, '/') == seq![a@, b@, c@],
{
    let mut a: Vec<char> = Vec::new();
    let mut b: Vec<char> = Vec::new();
    let mut c: Vec<char> = Vec::new();
    let mut seg: usize = 0;
    let mut i: usize = 0;
    while i < s.len()
        invariant
            i <= s@.len(),
            seg <= 2,
            seg == 0 ==> split_all(s@.take(i as int), '/') == seq![a@] && b@.len() == 0
                && c@.len() == 0,
            seg == 1 ==> split_all(s@.take(i as int), '/') == seq![a@, b@] && c@.len() == 0,
            seg == 2 ==> split_all(s@.take(i as int), '/') == seq![a@, b@, c@],
        decreases s@.len() - i,
    {
        let ch = s[i];
        let ghost pre = s@.take(i as int);
        let ghost post = s@.take(i + 1);
        proof {
            assert(post =~= pre.push(s@[i as int]));
            if ch == '/' {
                lemma_split_all_push_sep(pre, '/');
            } else {
                lemma_split_all_push_other(pre, '/', ch);
            }
        }
        if ch == '/' {
            if seg == 2 {
                proof {
                    lemma_split_all_len_monotone(s@, '/', i + 1);
                }
                return None;
            }
            seg = seg + 1;
            proof {
                if seg == 1 {
                    assert(b@ =~= Seq::<char>::empty());
                    assert(split_all(post, '/') =~= seq![a@, b@]);
                } else {
                    assert(c@ =~= Seq::<char>::empty());
                    assert(split_all(post, '/') =~= seq![a@, b@, c@]);
                }
            }
        } else {
            if seg == 0 {
                a.push(ch);
                proof {
                    assert(split_all(post, '/') =~= seq![a@]);
                }
            } else if seg == 1 {
                b.push(ch);
                proof {
                    assert(split_all(post, '/') =~= seq![a@, b@]);
                }
            } else {
                c.push(ch);
                proof {
                    assert(split_all(post, '/') =~= seq![a@, b@, c@]);
                }
            }
        }
        i = i + 1;
    }
    proof {
        assert(s@.take(s@.len() as int) =~= s@);
    }
    if seg == 2 {
        Some((a, b, c))
    } else {
        None
    }
}

/// Splits an `iv/ciphertext/tag` blob and hex-decodes the three segments.
/// Fails exactly when the blob does not have three segments or a segment is
/// not valid hex.
pub fn split_iv_data_mac(original: &str) -> (r: Option<(Vec<u8>, Vec<u8>, Vec<u8>)>)
    ensures
        ({
            let segs = split_all(original@, '/');
            &&& r is Some <==> (segs.len() == 3 && is_hex_seq(segs[0]) && is_hex_seq(segs[1])
                && is_hex_seq(segs[2]))
            &&& r matches Some((iv, data, mac)) ==> segs.len() == 3 && iv@ == unhex(segs[0])
                && data@ == unhex(segs[1]) && mac@ == unhex(segs[2])
        }),
{
    let chars = string_chars(original);
    let (a, b, c) = match split3(&chars) {
        Some(t) => t,
        None => {
            return None;
        },
    };
    let iv = match hex_decode(&a) {
        Some(v) => v,
        None => {
            return None;
        },
    };
    let data = match hex_decode(&b) {
        Some(v) => v,
        None => {
            return None;
        },
    };
    let mac = match hex_decode(&c) {
        Some(v) => v,
        None => {
            return None;
        },
    };
    Some((iv, data, mac))
}

/// Whether a blob parses: three `/`-separated hex segments, a 12-byte IV
/// and a 16-byte tag.
pub open spec fn blob_well_formed(blob: Seq<char>) -> bool {
    let segs = split_all(blob, '/');
    &&& segs.len() == 3
    &&& is_hex_seq(segs[0])
    &&& is_hex_seq(segs[1])
    &&& is_hex_seq(segs[2])
    &&& unhex(segs[0]).len() == 12
    &&& unhex(segs[2]).len() == 16
}

/// Whether decryption of a blob under a key succeeds: it parses and its
/// tag is the GCM tag of its ciphertext.
pub open spec fn decrypt_ok(blob: Seq<char>, key: Seq<u8>) -> bool {
    let segs = split_all(blob, '/');
    blob_well_formed(blob) && unhex(segs[2]) == aes_gcm_tag(key, unhex(segs[0]), unhex(segs[1]))
}

/// The plaintext a successful decryption returns: the counter-mode
/// transform of the blob's ciphertext under its IV.
pub open spec fn decrypted(blob: Seq<char>, key: Seq<u8>) -> Seq<u8> {
    let segs = split_all(blob, '/');
    aes_gcm_ctr(key, unhex(segs[0]), unhex(segs[1]))
}

/// The encoded blob that encryption produces for a key, IV and plaintext.
pub open spec fn blob_of(key: Seq<u8>, iv: Seq<u8>, data: Seq<u8>) -> Seq<char> {
    let ct = aes_gcm_ctr(key, iv, data);
    hex_of(iv) + seq!['/'] + hex_of(ct) + seq!['/'] + hex_of(aes_gcm_tag(key, iv, ct))
}

/// What encryption promises of its output `blob` for some fresh IV: the
/// encoded shape, a ciphertext as long as the plaintext, and the 16-byte
/// tag.
pub open spec fn encryption_shape(key: Seq<u8>, iv: Seq<u8>, data: Seq<u8>, blob: Seq<char>) -> bool {
    &&& iv.len() == 12
    &&& blob == blob_of(key, iv, data)
    &&& aes_gcm_ctr(key, iv, data).len() == data.len()
    &&& aes_gcm_tag(key, iv, aes_gcm_ctr(key, iv, data)).len() == 16
}

/// Encrypts a pattern under the password-derived key with a fresh 12-byte
/// IV, returning the `hex(iv)/hex(ciphertext)/hex(tag)` blob.
pub fn encrypt(data: &[u8], password: &str) -> (r: String)
    ensures
        exists|iv: Seq<u8>| #[trigger] encryption_shape(key_of(password.spec_bytes()), iv, data@, r@),
{
    let valid_key = get_valid_key(password);
    let iv = get_iv(12);
    let (ct, tag) = aes_gcm_seal(valid_key.as_slice(), iv.as_slice(), data);
    let mut chars = hex_encode(&iv);
    chars.push('/');
    let mut ct_hex = hex_encode(&ct);
    chars.append(&mut ct_hex);
    chars.push('/');
    let mut tag_hex = hex_encode(&tag);
    chars.append(&mut tag_hex);
    let r = chars_to_string(&chars);
    proof {
        let k = key_of(password.spec_bytes());
        assert(r@ =~= blob_of(k, iv@, data@));
        assert(encryption_shape(k, iv@, data@, r@));
    }
    r
}

/// Decrypts an `iv/ciphertext/tag` blob under the password-derived key.
/// Malformed blobs (segmentation, hex, IV or tag size) fail with
/// `Malformed`; an authentication-tag mismatch fails with `Rejected`.
pub fn decrypt(iv_data_mac: &str, key: &str) -> (r: Result<Vec<u8>, DecryptError>)
    ensures
        ({
            let k = key_of(key.spec_bytes());
            &&& !blob_well_formed(iv_data_mac@) <==> r == Err::<Vec<u8>, DecryptError>(
                DecryptError::Malformed,
            )
            &&& r is Ok <==> decrypt_ok(iv_data_mac@, k)
            &&& r matches Ok(pt) ==> pt@ == decrypted(iv_data_mac@, k)
            &&& r matches Ok(pt) ==> forall|p: Seq<u8>|
                unhex(split_all(iv_data_mac@, '/')[1]) == aes_gcm_ctr(
                    k,
                    unhex(split_all(iv_data_mac@, '/')[0]),
                    p,
                ) ==> pt@ == p
        }),
{
    let (iv, data, mac) = match split_iv_data_mac(iv_data_mac) {
        Some(t) => t,
        None => {
            return Err(DecryptError::Malformed);
        },
    };
    if iv.len() != 12 || mac.len() != 16 {
        return Err(DecryptError::Malformed);
    }
    let valid_key = get_valid_key(key);
    match aes_gcm_open(valid_key.as_slice(), iv.as_slice(), data.as_slice(), mac.as_slice()) {
        Some(pt) => Ok(pt),
        None => Err(DecryptError::Rejected),
    }
}

/// The vault round-trip law: decrypting an encryption under the same
/// password yields the plaintext, for every plaintext and password.
pub fn encrypt_then_decrypt(data: &[u8], password: &str) -> (r: Vec<u8>)
    ensures
        r@ == data@,
{
    let blob = encrypt(data, password);
    proof {
        let k = key_of(password.spec_bytes());
        let ivs = choose|ivs: Seq<u8>| encryption_shape(k, ivs, data@, blob@);
        let ct = aes_gcm_ctr(k, ivs, data@);
        let tag = aes_gcm_tag(k, ivs, ct);
        lemma_hex_of_is_hex(ivs);
        lemma_hex_of_is_hex(ct);
        lemma_hex_of_is_hex(tag);
        lemma_unhex_hex_of(ivs);
        lemma_unhex_hex_of(ct);
        lemma_unhex_hex_of(tag);
        assert(forall|i: int| 0 <= i < hex_of(ivs).len() ==> #[trigger] hex_of(ivs)[i] != '/');
        assert(forall|i: int| 0 <= i < hex_of(ct).len() ==> #[trigger] hex_of(ct)[i] != '/');
        assert(forall|i: int| 0 <= i < hex_of(tag).len() ==> #[trigger] hex_of(tag)[i] != '/');
        lemma_split_all_three(hex_of(ivs), hex_of(ct), hex_of(tag), '/');
        assert(blob@ =~= hex_of(ivs) + seq!['/'] + hex_of(ct) + seq!['/'] + hex_of(tag));
    }
    match decrypt(blob.as_str(), password) {
        Ok(pt) => pt,
        Err(_) => {
            proof {
                assert(false);
            }
            Vec::new()
        },
    }
}

} // verus!
