//! Encrypting files with AES-256-GCM under a fresh random nonce, and naming the
//! encrypted copies.
use vstd::prelude::*;
use aes_gcm::aead::{Aead, KeyInit};
use aes_gcm::{Aes256Gcm, Key, Nonce};
use rand::RngCore;
use crate::paths::{
    extension, extension_of, file_name, file_name_of, is_plain_component,
    last_index_of, replace_file_name, with_file_name_of,
};
use crate::text::{eq_ignore_ascii_case, same_ignoring_ascii_case};

verus! {

/// The error type of `aes_gcm` (an opaque failure).
#[verifier::external_type_specification]
#[verifier::external_body]
pub struct ExAeadError(aes_gcm::Error);

/// The largest plaintext, in bytes, that AES-GCM encrypts.
pub const MAX_PLAINTEXT: u64 = 0x10_0000_0000;

/// The ciphertext with its 16-byte tag appended that AES-256-GCM gives for `plaintext`
/// under `key` and `nonce`, with no associated data.
pub uninterp spec fn aes256gcm_sealed(key: Seq<u8>, nonce: Seq<u8>, plaintext: Seq<u8>) -> Seq<u8>;

/// Encrypts `plaintext` with AES-256-GCM (`Aead::encrypt` of `aes_gcm::Aes256Gcm`);
/// the result is the ciphertext followed by the tag, 16 bytes longer than the plaintext.
/// It fails exactly when the plaintext is longer than 2^36 bytes.
#[verifier::external_body]
fn aes256gcm_encrypt(key: &[u8; 32], nonce: &[u8; 12], plaintext: &[u8]) -> (r: Result<Vec<u8>, aes_gcm::Error>)
    ensures
        r is Ok <==> plaintext@.len() <= MAX_PLAINTEXT,
        r matches Ok(c) ==> c@ == aes256gcm_sealed(key@, nonce@, plaintext@),
        r matches Ok(c) ==> c@.len() == plaintext@.len() + 16,
{
    let cipher = Aes256Gcm::new(Key::<Aes256Gcm>::from_slice(key));
    cipher.encrypt(Nonce::from_slice(nonce), plaintext)
}

/// The plaintext that AES-256-GCM recovers from `ciphertext` (the encrypted bytes
/// followed by their 16-byte tag) under `key` and `nonce`, with no associated data;
/// `None` where the tag does not check out.
pub uninterp spec fn aes256gcm_opened(key: Seq<u8>, nonce: Seq<u8>, ciphertext: Seq<u8>) -> Option<Seq<u8>>;

/// Decrypts `ciphertext` with AES-256-GCM (`Aead::decrypt` of `aes_gcm::Aes256Gcm`,
/// which fails where the tag does not check out). What `aes256gcm_encrypt` made from
/// a plaintext under the same key and nonce decrypts to that plaintext.
#[verifier::external_body]
fn aes256gcm_decrypt(key: &[u8; 32], nonce: &[u8], ciphertext: &[u8]) -> (r: Result<Vec<u8>, aes_gcm::Error>)
    requires
        nonce@.len() == 12,
    ensures
        match r {
            Ok(p) => aes256gcm_opened(key@, nonce@, ciphertext@) == Some(p@),
            Err(_) => aes256gcm_opened(key@, nonce@, ciphertext@) is None,
        },
        r is Err ==> forall|m: Seq<u8>|
            m.len() <= MAX_PLAINTEXT ==> #[trigger] aes256gcm_sealed(key@, nonce@, m) != ciphertext@,
        r matches Ok(p) ==> forall|m: Seq<u8>|
            m.len() <= MAX_PLAINTEXT && #[trigger] aes256gcm_sealed(key@, nonce@, m) == ciphertext@ ==> p@ == m,
{
    let cipher = Aes256Gcm::new(Key::<Aes256Gcm>::from_slice(key));
    cipher.decrypt(Nonce::from_slice(nonce), ciphertext)
}

/// Twelve bytes from the thread's random generator (`RngCore::fill_bytes` on `rand::thread_rng()`).
#[verifier::external_body]
fn random_nonce() -> (r: [u8; 12])
{
    let mut nonce = [0u8; 12];
    rand::thread_rng().fill_bytes(&mut nonce);
    nonce
}

/// Why a file could not be encrypted.
#[derive(Debug, Clone, Copy, PartialEq, Eq, Structural)]
pub enum EncryptError {
    /// The data is longer than AES-GCM can encrypt.
    TooLong,
}

/// `data` encrypted under `key` and `nonce`, the nonce written first.
pub fn seal_with_nonce(data: &[u8], key: &[u8; 32], nonce: &[u8; 12]) -> (r: Result<Vec<u8>, EncryptError>)
    ensures
        r is Ok <==> data@.len() <= MAX_PLAINTEXT,
        r matches Ok(v) ==> v@ == nonce@ + aes256gcm_sealed(key@, nonce@, data@),
        r matches Ok(v) ==> v@.len() == data@.len() + 28,
{
    let sealed = match aes256gcm_encrypt(key, nonce, data) {
        Ok(c) => c,
        Err(_) => return Err(EncryptError::TooLong),
    };
    let mut result: Vec<u8> = Vec::new();
    let mut i: usize = 0;
    while i < 12
        invariant
            i <= 12,
            result@ == nonce@.take(i as int),
        decreases 12 - i,
    {
        result.push(nonce[i]);
        i = i + 1;
        assert(result@ =~= nonce@.take(i as int));
    }
    let mut j: usize = 0;
    while j < sealed.len()
        invariant
            j <= sealed.len(),
            result@ == nonce@ + sealed@.take(j as int),
        decreases sealed.len() - j,
    {
        result.push(sealed[j]);
        j = j + 1;
        assert(result@ =~= nonce@ + sealed@.take(j as int));
    }
    assert(sealed@.take(sealed@.len() as int) =~= sealed@);
    Ok(result)
}

/// `data` encrypted under `key` with a fresh random nonce: the 12 nonce bytes,
/// then the ciphertext and its tag.
pub fn encrypt_bytes(data: &[u8], key: &[u8; 32]) -> (r: Result<Vec<u8>, EncryptError>)
    ensures
        r is Ok <==> data@.len() <= MAX_PLAINTEXT,
        r matches Ok(v) ==> v@.len() == data@.len() + 28,
        r matches Ok(v) ==> v@.skip(12) == aes256gcm_sealed(key@, v@.take(12), data@),
{
    let nonce = random_nonce();
    let r = seal_with_nonce(data, key, &nonce);
    proof {
        if r is Ok {
            let v = r->Ok_0;
            assert(v@.take(12) =~= nonce@);
            assert(v@.skip(12) =~= aes256gcm_sealed(key@, nonce@, data@));
        }
    }
    r
}


/// Why encrypted bytes could not be decrypted.
#[derive(Debug, Clone, Copy, PartialEq, Eq, Structural)]
pub enum DecryptError {
    /// Fewer than the 12 bytes of the nonce.
    TooShort,
    /// The ciphertext does not check out under the key and the nonce.
    Rejected,
}

/// The plaintext of bytes that `encrypt_bytes` wrote: the first 12 bytes are the
/// nonce, the rest the ciphertext and its tag. Bytes that `encrypt_bytes` made from
/// `m` under `key` decrypt to `m`.
pub fn decrypt_bytes(data: &[u8], key: &[u8; 32]) -> (r: Result<Vec<u8>, DecryptError>)
    ensures
        r matches Err(DecryptError::TooShort) <==> data@.len() < 12,
        r is Ok <==> data@.len() >= 12 && aes256gcm_opened(key@, data@.take(12), data@.skip(12)) is Some,
        r matches Ok(p) ==> aes256gcm_opened(key@, data@.take(12), data@.skip(12)) == Some(p@),
        forall|n: Seq<u8>, m: Seq<u8>|
            n.len() == 12 && m.len() <= MAX_PLAINTEXT && data@ == n + #[trigger] aes256gcm_sealed(key@, n, m)
                ==> r is Ok && r->Ok_0@ == m,
{
    if data.len() < 12 {
        return Err(DecryptError::TooShort);
    }
    let mut nonce: Vec<u8> = Vec::new();
    let mut i: usize = 0;
    while i < 12
        invariant
            i <= 12 <= data@.len(),
            nonce@ == data@.take(i as int),
        decreases 12 - i,
    {
        nonce.push(data[i]);
        i = i + 1;
        assert(nonce@ =~= data@.take(i as int));
    }
    let mut body: Vec<u8> = Vec::new();
    let mut j: usize = 12;
    while j < data.len()
        invariant
            12 <= j <= data@.len(),
            body@ == data@.subrange(12, j as int),
        decreases data.len() - j,
    {
        body.push(data[j]);
        j = j + 1;
        assert(body@ =~= data@.subrange(12, j as int));
    }
    assert(body@ =~= data@.skip(12));
    let r = aes256gcm_decrypt(key, nonce.as_slice(), body.as_slice());
    proof {
        assert forall|n: Seq<u8>, m: Seq<u8>|
            n.len() == 12 && m.len() <= MAX_PLAINTEXT && data@ == n + #[trigger] aes256gcm_sealed(key@, n, m)
            implies r is Ok && r->Ok_0@ == m by {
            assert(data@.take(12) =~= n);
            assert(data@.skip(12) =~= aes256gcm_sealed(key@, n, m));
        }
    }
    match r {
        Ok(p) => Ok(p),
        Err(_) => Err(DecryptError::Rejected),
    }
}

/// Whether the path names an encrypted copy: its extension is `data`, in any ASCII case.
pub open spec fn is_data_path(path: Seq<char>) -> bool {
    match extension_of(path) {
        Some(e) => same_ignoring_ascii_case(e, "data"@),
        None => false,
    }
}

/// Whether `path` is an encrypted copy already, which the walk skips.
pub fn is_output_data_file(path: &str) -> (r: bool)
    ensures r == is_data_path(path@),
{
    match extension(path) {
        Some(e) => eq_ignore_ascii_case(e.as_str(), "data"),
        None => false,
    }
}

/// The path of the encrypted copy of `path`: the same directory, the file name
/// with `.data` appended (`output.data` where the path has no file name).
pub open spec fn data_path(path: Seq<char>) -> Seq<char> {
    let name = match file_name_of(path) {
        Some(n) => n,
        None => "output"@,
    };
    with_file_name_of(path, name + ".data"@)
}

proof fn lemma_last_dot_before_data(x: Seq<char>)
    ensures last_index_of(x + seq!['.', 'd', 'a', 't', 'a'], '.') == x.len(),
{
    let s = x + seq!['.', 'd', 'a', 't', 'a'];
    assert(s.drop_last() =~= x + seq!['.', 'd', 'a', 't']);
    assert(s.drop_last().drop_last() =~= x + seq!['.', 'd', 'a']);
    assert(s.drop_last().drop_last().drop_last() =~= x + seq!['.', 'd']);
    assert(s.drop_last().drop_last().drop_last().drop_last() =~= x + seq!['.']);
    assert(last_index_of(x + seq!['.'], '.') == x.len());
    assert(last_index_of(x + seq!['.', 'd'], '.') == x.len());
    assert(last_index_of(x + seq!['.', 'd', 'a'], '.') == x.len());
    assert(last_index_of(x + seq!['.', 'd', 'a', 't'], '.') == x.len());
}

/// Where the encrypted copy of `path` is written. That copy is itself an encrypted
/// copy by its extension, so that a later walk skips it, wherever the new file
/// name stays one component: always where the file name holds no `/`, backslash or
/// `:`, and in general wherever `name.data` is its own file name on this platform
/// (on Unix, for every file name; on Windows a name such as `a:` becomes a drive
/// prefix once pushed, and the copy is then named `.data` alone).
pub fn build_output_path(path: &str) -> (r: String)
    ensures
        r@ == data_path(path@),
        (file_name_of(path@) matches Some(x) ==> file_name_of(x + ".data"@) == Some(x + ".data"@))
            ==> is_data_path(r@),
        (file_name_of(path@) matches Some(x) ==> !x.contains('/') && !x.contains('\\') && !x.contains(':'))
            ==> is_data_path(r@),
{
    let mut name = match file_name(path) {
        Some(n) => n,
        None => "output".to_owned(),
    };
    let ghost base = name@;
    proof {
        reveal_strlit("output");
    }
    assert(base.len() > 0);
    name.append(".data");
    let r = replace_file_name(path, name.as_str());
    proof {
        reveal_strlit(".data");
        reveal_strlit("data");
        let dotdata = seq!['.', 'd', 'a', 't', 'a'];
        assert(".data"@ == dotdata);
        let full = base + dotdata;
        assert(name@ == full);
        let plain_base = !base.contains('/') && !base.contains('\\') && !base.contains(':');
        if file_name_of(path@) is None {
            assert(plain_base) by {
                assert(base == "output"@);
                assert(!base.contains('/'));
                assert(!base.contains('\\'));
                assert(!base.contains(':'));
            }
        }
        if plain_base {
            assert forall|c: char| c == '/' || c == '\\' || c == ':' implies !full.contains(c) by {
                if full.contains(c) {
                    let j = choose|j: int| 0 <= j < full.len() && full[j] == c;
                    if j < base.len() {
                        assert(base[j] == c);
                    } else {
                        assert(dotdata[j - base.len()] == c);
                    }
                }
            }
            assert(full.len() > 2);
            assert(is_plain_component(full));
        }
        if file_name_of(r@) == Some(full) {
            lemma_last_dot_before_data(base);
            assert(full.skip(base.len() + 1int) =~= "data"@);
            assert(extension_of(r@) == Some("data"@));
        }
    }
    r
}

/// The count of encrypted files that the progress monitor has not yet seen
/// before it ever looks: no count is equal to it, in practice.
pub const NOTHING_SEEN: usize = usize::MAX;

/// What the progress monitor does on one look at the counter.
#[derive(Debug, Clone, Copy, PartialEq, Eq, Structural)]
pub struct MonitorStep {
    /// The count to report, when it changed since the last look.
    pub report: Option<usize>,
    /// The count seen, for the next look.
    pub last_seen: usize,
    /// Whether the monitor stops after this look.
    pub stop: bool,
}

/// One look of the progress monitor, which last saw `last_seen` (first
/// `NOTHING_SEEN`) and now reads `current`, with the workers finished or not:
/// it reports the count exactly when it changed, remembers it, and stops once the
/// workers are done.
pub fn monitor_step(last_seen: usize, current: usize, done: bool) -> (r: MonitorStep)
    ensures
        r.report == (if current == last_seen { None::<usize> } else { Some(current) }),
        r.last_seen == current,
        r.stop == done,
{
    let report = if current != last_seen { Some(current) } else { None };
    MonitorStep { report, last_seen: current, stop: done }
}

}
