//! Seals a password the way the identity service expects it: AES-128-CBC over a
//! random prefix and the password, written in Base64.

use crate::error::AuthError;
use crate::text::to_chars;
use aes::cipher::{block_padding::Pkcs7, BlockModeEncrypt, Iv, Key, KeyIvInit};
use base64::Engine;
use rand::RngExt;
use vstd::prelude::*;
use vstd::slice::slice_subrange;
use vstd::string::*;
use vstd::utf8;

verus! {

/// What `cbc::Encryptor<aes::Aes128>` makes of `plain` under `key` and `iv`, padded
/// by PKCS #7.
pub uninterp spec fn aes128_cbc(key: Seq<u8>, iv: Seq<u8>, plain: Seq<u8>) -> Seq<u8>;

/// What `base64::engine::general_purpose::STANDARD` writes for `bytes`.
pub uninterp spec fn base64_text(bytes: Seq<u8>) -> Seq<char>;

/// What `decrypt_padded::<Pkcs7>` of `cbc::Decryptor<aes::Aes128>` makes of
/// `ciphertext` under `key` and `iv`; nothing where it refuses the padding.
pub uninterp spec fn aes128_cbc_opened(key: Seq<u8>, iv: Seq<u8>, ciphertext: Seq<u8>) -> Option<
    Seq<u8>,
>;

/// The bytes that `decode` of `base64::engine::general_purpose::STANDARD` reads in
/// `text`; nothing where it refuses the text.
pub uninterp spec fn base64_bytes(text: Seq<char>) -> Option<Seq<u8>>;

/// `opened` has the length of `plain` and is the same from byte 16 on.
pub open spec fn opens_behind_first_block(opened: Option<Seq<u8>>, plain: Seq<u8>) -> bool {
    match opened {
        Some(p) => p.len() == plain.len() && p.skip(16) == plain.skip(16),
        None => false,
    }
}

/// Calls `encrypt_padded::<Pkcs7>` of the CBC mode over AES-128, in a buffer with
/// room for one more block. The result depends on the key, the IV and the plain
/// bytes alone and has the name `aes128_cbc`; padding fills the last block, with a
/// whole block where the plain bytes end on one. Decryption under the same key and
/// IV gives the plain bytes back. Under another IV it gives them back behind the
/// first block: CBC mixes the IV into that block alone. This holds where the
/// padding lies behind it too.
#[verifier::external_body]
fn encrypt_aes128_cbc(key: &[u8], iv: &[u8], plain: &[u8]) -> (r: Vec<u8>)
    requires
        key@.len() == 16,
        iv@.len() == 16,
    ensures
        r@ == aes128_cbc(key@, iv@, plain@),
        r@.len() == (plain@.len() / 16 + 1) * 16,
        aes128_cbc_opened(key@, iv@, r@) == Some(plain@),
        plain@.len() >= 16 ==> forall|other: Seq<u8>|
            other.len() == 16 ==> opens_behind_first_block(
                #[trigger] aes128_cbc_opened(key@, other, r@),
                plain@,
            ),
{
    let key = Key::<cbc::Encryptor<aes::Aes128>>::try_from(key).expect("16 bytes");
    let iv = Iv::<cbc::Encryptor<aes::Aes128>>::try_from(iv).expect("16 bytes");
    let mut buf = [plain, &[0u8; 16]].concat();
    cbc::Encryptor::<aes::Aes128>::new(&key, &iv)
        .encrypt_padded::<Pkcs7>(&mut buf, plain.len())
        .expect("room for the padding")
        .to_vec()
}

/// Calls `encode` of `base64::engine::general_purpose::STANDARD`. The result
/// depends on the bytes alone and has the name `base64_text`; it has four
/// characters for each three bytes, the last three counted in full. Decoding gives
/// the bytes back.
#[verifier::external_body]
fn encode_base64(bytes: &[u8]) -> (r: String)
    ensures
        r@ == base64_text(bytes@),
        r@.len() == (bytes@.len() + 2) / 3 * 4,
        base64_bytes(r@) == Some(bytes@),
{
    base64::engine::general_purpose::STANDARD.encode(bytes)
}

/// Calls `random_range` of the thread's generator of `rand`: some number below
/// `bound`. It panics where there is none.
#[verifier::external_body]
fn random_below(bound: usize) -> (r: usize)
    requires
        bound > 0,
    ensures
        r < bound,
{
    rand::rng().random_range(0..bound)
}

/// The characters that random prefixes and IVs are made of.
pub const CHARSET: &'static str = "ABCDEFGHJKMNPQRSTWXYZabcdefhijkmnprstwxyz2345678";

/// `text` is made of `CHARSET` alone and has `len` characters.
pub open spec fn is_nonce(text: Seq<char>, len: nat) -> bool {
    &&& text.len() == len
    &&& forall|i: int| 0 <= i < text.len() ==> CHARSET@.contains(#[trigger] text[i])
}

/// The password sealed under the first 16 bytes of `salt`, behind `prefix`.
pub open spec fn sealed(
    password: Seq<char>,
    salt: Seq<char>,
    iv: Seq<char>,
    prefix: Seq<char>,
) -> Seq<char> {
    base64_text(
        aes128_cbc(
            utf8::encode_utf8(salt).take(16),
            utf8::encode_utf8(iv),
            utf8::encode_utf8(prefix + password),
        ),
    )
}

/// What decryption under the first 16 bytes of `salt` and under `iv` makes of a
/// sealed text.
pub open spec fn opened(text: Seq<char>, salt: Seq<char>, iv: Seq<u8>) -> Option<Seq<u8>> {
    match base64_bytes(text) {
        Some(bytes) => aes128_cbc_opened(utf8::encode_utf8(salt).take(16), iv, bytes),
        None => None,
    }
}

/// The sealed text opens to the password: decryption under the salt and any IV, the
/// right one or not, gives 64 bytes and behind them the password.
pub open spec fn opens_to(text: Seq<char>, salt: Seq<char>, password: Seq<char>) -> bool {
    forall|iv: Seq<u8>|
        iv.len() == 16 ==> (#[trigger] opened(text, salt, iv) matches Some(p) && p.len() == 64
            + utf8::encode_utf8(password).len() && p.skip(64) == utf8::encode_utf8(password))
}

/// How many characters a sealed text of `bytes` plain bytes has.
pub open spec fn sealed_len(bytes: nat) -> nat {
    (((bytes / 16 + 1) * 16 + 2) / 3 * 4) as nat
}

/// A text of `len` characters, each drawn from `CHARSET`.
pub fn random_text(len: usize) -> (r: String)
    ensures
        is_nonce(r@, len as nat),
{
    let charset: Vec<char> = to_chars(CHARSET);
    proof {
        reveal_strlit("ABCDEFGHJKMNPQRSTWXYZabcdefhijkmnprstwxyz2345678");
    }
    let mut out: String = String::new();
    let mut i: usize = 0;
    while i < len
        invariant
            i <= len,
            charset@ == CHARSET@,
            charset@.len() > 0,
            is_nonce(out@, i as nat),
        decreases len - i,
    {
        let k: usize = random_below(charset.len());
        assert(CHARSET@[k as int] == charset@[k as int]);
        out.push(charset[k]);
        i = i + 1;
    }
    out
}

/// Seals `password` with the random texts `iv` and `prefix`.
pub fn seal_password(password: &str, salt: &str, iv: &str, prefix: &str) -> (r: String)
    requires
        utf8::encode_utf8(salt@).len() >= 16,
        utf8::encode_utf8(iv@).len() == 16,
    ensures
        r@ == sealed(password@, salt@, iv@, prefix@),
        r@.len() == sealed_len(utf8::encode_utf8(prefix@ + password@).len()),
        opened(r@, salt@, utf8::encode_utf8(iv@)) == Some(utf8::encode_utf8(prefix@ + password@)),
        utf8::encode_utf8(prefix@).len() == 64 ==> opens_to(r@, salt@, password@),
{
    proof {
        lemma_encode_concat(prefix@, password@);
    }
    let key: &[u8] = slice_subrange(salt.as_bytes(), 0, 16);
    assert(key@ =~= utf8::encode_utf8(salt@).take(16));
    let mut plain: String = prefix.to_owned();
    plain.append(password);
    let ciphertext: Vec<u8> = encrypt_aes128_cbc(key, iv.as_bytes(), plain.as_str().as_bytes());
    let text: String = encode_base64(ciphertext.as_slice());
    proof {
        let bytes = utf8::encode_utf8(prefix@ + password@);
        let behind = utf8::encode_utf8(password@);
        if utf8::encode_utf8(prefix@).len() == 64 {
            assert forall|other: Seq<u8>| other.len() == 16 implies (#[trigger] opened(
                text@,
                salt@,
                other,
            ) matches Some(p) && p.len() == 64 + behind.len() && p.skip(64) == behind) by {
                let p = opened(text@, salt@, other);
                assert(opens_behind_first_block(p, bytes));
                assert(p->0.skip(64) =~= p->0.skip(16).skip(48));
                assert(bytes.skip(64) =~= bytes.skip(16).skip(48));
                assert(bytes.skip(64) =~= behind);
            }
        }
    }
    text
}

proof fn lemma_nonce_bytes(text: Seq<char>, len: nat)
    requires
        is_nonce(text, len),
    ensures
        utf8::encode_utf8(text).len() == len,
{
    reveal_strlit("ABCDEFGHJKMNPQRSTWXYZabcdefhijkmnprstwxyz2345678");
    assert forall|i: int| 0 <= i < text.len() implies (#[trigger] text[i]) as nat <= 127 by {
        assert(CHARSET@.contains(text[i]));
        let k = choose|k: int| 0 <= k < CHARSET@.len() && CHARSET@[k] == text[i];
        assert(CHARSET@[k] == text[i]);
    }
    utf8::is_ascii_chars_encode_utf8(text);
}

/// Seals `password` with the salt of the login form, behind 64 random characters
/// and under a random IV.
pub fn encrypt_password(password: &str, salt: &str) -> (r: Result<String, AuthError>)
    requires
        utf8::encode_utf8(salt@).len() >= 16,
    ensures
        match r {
            Ok(text) => {
                &&& exists|iv: Seq<char>, prefix: Seq<char>|
                    is_nonce(iv, 16) && is_nonce(prefix, 64) && text@ == #[trigger] sealed(
                        password@,
                        salt@,
                        iv,
                        prefix,
                    )
                &&& text@.len() == sealed_len(64 + utf8::encode_utf8(password@).len())
                &&& opens_to(text@, salt@, password@)
            },
            Err(_) => false,
        },
{
    let iv: String = random_text(16);
    let prefix: String = random_text(64);
    proof {
        lemma_nonce_bytes(iv@, 16);
        lemma_nonce_bytes(prefix@, 64);
        lemma_encode_concat(prefix@, password@);
    }
    Ok(seal_password(password, salt, iv.as_str(), prefix.as_str()))
}

proof fn lemma_encode_concat(a: Seq<char>, b: Seq<char>)
    ensures
        utf8::encode_utf8(a + b) == utf8::encode_utf8(a) + utf8::encode_utf8(b),
    decreases a.len(),
{
    reveal_with_fuel(utf8::encode_utf8, 2);
    if a.len() == 0 {
        assert(a + b =~= b);
        assert(utf8::encode_utf8(a) + utf8::encode_utf8(b) =~= utf8::encode_utf8(b));
    } else {
        assert((a + b).drop_first() =~= a.drop_first() + b);
        lemma_encode_concat(a.drop_first(), b);
        assert(utf8::encode_utf8(a + b) =~= utf8::encode_utf8(a) + utf8::encode_utf8(b));
    }
}

/// Of the salt only the first 16 bytes count.
pub proof fn law_salt_counts_up_to_the_key(
    password: Seq<char>,
    salt: Seq<char>,
    other: Seq<char>,
    iv: Seq<char>,
    prefix: Seq<char>,
)
    requires
        utf8::encode_utf8(salt).len() >= 16,
        utf8::encode_utf8(other).len() >= 16,
        utf8::encode_utf8(salt).take(16) == utf8::encode_utf8(other).take(16),
    ensures
        sealed(password, salt, iv, prefix) == sealed(password, other, iv, prefix),
{
}

/// A sealed text opens to one password only.
pub proof fn law_sealed_text_has_one_password(
    text: Seq<char>,
    salt: Seq<char>,
    a: Seq<char>,
    b: Seq<char>,
)
    requires
        opens_to(text, salt, a),
        opens_to(text, salt, b),
    ensures
        a == b,
{
    let iv = Seq::new(16, |i: int| 0u8);
    assert(iv.len() == 16);
    assert(opened(text, salt, iv) is Some);
    assert(utf8::encode_utf8(a) == utf8::encode_utf8(b));
    utf8::encode_utf8_decode_utf8(a);
    utf8::encode_utf8_decode_utf8(b);
}

/// A nonce is made of these characters alone and has the length that was asked for.
pub proof fn law_nonce_characters(text: Seq<char>, len: nat)
    ensures
        is_nonce(text, len) <==> text.len() == len && forall|i: int|
            0 <= i < text.len() ==> "ABCDEFGHJKMNPQRSTWXYZabcdefhijkmnprstwxyz2345678"@.contains(
                #[trigger] text[i],
            ),
{
}

/// To open to a password is to hold, in Base64, what decrypts under the first 16
/// bytes of the salt and any IV to 64 bytes and the password behind them.
pub proof fn law_opening_means_decrypting(
    text: Seq<char>,
    salt: Seq<char>,
    password: Seq<char>,
    iv: Seq<u8>,
)
    requires
        opens_to(text, salt, password),
        iv.len() == 16,
    ensures
        base64_bytes(text) matches Some(bytes) && (aes128_cbc_opened(
            utf8::encode_utf8(salt).take(16),
            iv,
            bytes,
        ) matches Some(p) && p.len() == 64 + utf8::encode_utf8(password).len() && p.skip(64)
            == utf8::encode_utf8(password)),
{
    assert(opened(text, salt, iv) is Some);
}

/// A sealed text is the Base64 of the ciphertext of the prefix and the password
/// behind it, under the first 16 bytes of the salt.
pub proof fn law_sealed_text_is_the_ciphertext(
    password: Seq<char>,
    salt: Seq<char>,
    iv: Seq<char>,
    prefix: Seq<char>,
)
    ensures
        sealed(password, salt, iv, prefix) == base64_text(
            aes128_cbc(
                utf8::encode_utf8(salt).take(16),
                utf8::encode_utf8(iv),
                utf8::encode_utf8(prefix) + utf8::encode_utf8(password),
            ),
        ),
{
    lemma_encode_concat(prefix, password);
}

/// A sealed text grows by whole blocks: by 64 characters for 48 bytes.
pub proof fn law_sealed_len(bytes: nat)
    ensures
        bytes < 16 ==> sealed_len(bytes) == 24,
        16 <= bytes < 32 ==> sealed_len(bytes) == 44,
        32 <= bytes < 48 ==> sealed_len(bytes) == 64,
        sealed_len(bytes + 48) == sealed_len(bytes) + 64,
{
}

} // verus!
