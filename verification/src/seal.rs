//! Sealing a store's text under a password, through `magic-crypt`.
use vstd::prelude::*;
use magic_crypt::{MagicCrypt256, MagicCryptError, MagicCryptTrait};

verus! {

#[verifier::external_type_specification]
#[verifier::external_body]
pub struct ExMagicCryptError(MagicCryptError);

/// The Base64 text that `MagicCrypt256::new(password, None)` followed by
/// `encrypt_str_to_base64` makes of a plain text: AES-256-CBC under the
/// SHA-256 of the password with a zero IV, PKCS7 padding, standard Base64.
pub uninterp spec fn sealed_text(password: Seq<char>, plain: Seq<char>) -> Seq<char>;

/// The plain text that `decrypt_base64_to_string` recovers from a text under
/// a password, or `None` where it reports an error (bad Base64, bad padding,
/// or bytes that are not UTF-8).
pub uninterp spec fn opened_text(password: Seq<char>, data: Seq<char>) -> Option<Seq<char>>;

/// `encrypt_str_to_base64` of a cipher made from the password.
#[verifier::external_body]
fn encrypt_base64(password: &str, plain: &str) -> (sealed: String)
    ensures
        sealed@ == sealed_text(password@, plain@),
{
    MagicCrypt256::new(password, None::<&[u8]>).encrypt_str_to_base64(plain)
}

/// `decrypt_base64_to_string` of a cipher made from the password. Decryption
/// undoes encryption under the same password (the crate's own round trip):
/// what `encrypt_str_to_base64` made of a text opens to that text.
#[verifier::external_body]
fn decrypt_base64(password: &str, data: &str) -> (r: Result<String, MagicCryptError>)
    ensures
        r is Ok <==> opened_text(password@, data@) is Some,
        r matches Ok(t) ==> opened_text(password@, data@) == Some(t@),
        (exists|s: Seq<char>| #[trigger] sealed_text(password@, s) == data@) ==> r is Ok,
        r matches Ok(t) ==> forall|s: Seq<char>| #[trigger] sealed_text(password@, s) == data@ ==> t@ == s,
{
    MagicCrypt256::new(password, None::<&[u8]>).decrypt_base64_to_string(data)
}

/// Why a store's text did not open.
#[derive(Debug, PartialEq, Eq, Structural)]
pub enum SealError {
    /// The text is not what sealing under this password makes.
    Decrypt,
}

/// Seals the text of a store under a password.
pub fn seal_store(plain: &str, password: &str) -> (sealed: String)
    ensures
        sealed@ == sealed_text(password@, plain@),
{
    encrypt_base64(password, plain)
}

/// Opens the sealed text of a store with a password. A text sealed under
/// the same password opens to what was sealed.
pub fn open_store(data: &str, password: &str) -> (r: Result<String, SealError>)
    ensures
        match opened_text(password@, data@) {
            Some(t) => r matches Ok(s) && s@ == t,
            None => r == Err::<String, SealError>(SealError::Decrypt),
        },
        forall|s: Seq<char>| #[trigger] sealed_text(password@, s) == data@ ==> (r matches Ok(t) && t@ == s),
{
    match decrypt_base64(password, data) {
        Ok(t) => Ok(t),
        Err(_) => Err(SealError::Decrypt),
    }
}

} // verus!
