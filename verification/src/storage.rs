//! The persisted store: composes the catalog codec with the storage cipher.
//!
//! A `Storage` holds the configuration fixed at store creation: the file
//! path, the text format, whether blobs are encrypted, and the password for
//! the encrypted path. Reading and writing the file itself is the caller's
//! business; this module turns catalogs into blobs and back.

use vstd::prelude::*;

use crate::crypto::CipherError;
use crate::crypto::StorageCipher;
use crate::crypto::aes256_gcm_seal;
use crate::crypto::base64_of;
use crate::crypto::spec_storage_key;
use crate::crypto::spec_sealed_blob;
use crate::models::FeatureStore;
use crate::models::FeatureView;

verus! {

/// The text format of the persisted catalog.
#[derive(Debug, Clone, Copy, PartialEq, Eq, Structural)]
pub enum StorageFormat {
    Json,
    Toml,
}

pub open spec fn spec_extension(f: StorageFormat) -> Seq<char> {
    match f {
        StorageFormat::Json => "json"@,
        StorageFormat::Toml => "toml"@,
    }
}

/// ASCII lowercase folding, as used to recognise an extension.
pub open spec fn lower_ascii_char(c: char) -> char {
    if 65 <= c as u32 <= 90 {
        (((c as u32) + 32) as u8) as char
    } else {
        c
    }
}

pub open spec fn lower_ascii(s: Seq<char>) -> Seq<char> {
    s.map_values(|c: char| lower_ascii_char(c))
}

impl StorageFormat {
    pub fn extension(&self) -> (r: &'static str)
        ensures
            r@ == spec_extension(*self),
    {
        match self {
            StorageFormat::Json => "json",
            StorageFormat::Toml => "toml",
        }
    }

    /// Recognise a file extension, ignoring ASCII case.
    pub fn from_extension(ext: &str) -> (r: Option<StorageFormat>)
        ensures
            r == if lower_ascii(ext@) == "json"@ {
                Some(StorageFormat::Json)
            } else if lower_ascii(ext@) == "toml"@ {
                Some(StorageFormat::Toml)
            } else {
                None::<StorageFormat>
            },
    {
        let n = ext.unicode_len();
        let mut low: Vec<char> = Vec::new();
        let mut i: usize = 0;
        while i < n
            invariant
                n == ext@.len(),
                0 <= i <= n,
                low@ == lower_ascii(ext@.take(i as int)),
            decreases n - i,
        {
            let c = ext.get_char(i);
            let u = c as u32;
            let lc = if 65 <= u && u <= 90 {
                ((u + 32) as u8) as char
            } else {
                c
            };
            low.push(lc);
            proof {
                assert(ext@.take(i + 1) =~= ext@.take(i as int).push(ext@[i as int]));
                assert(low@ =~= lower_ascii(ext@.take(i + 1)));
            }
            i = i + 1;
        }
        proof {
            assert(ext@.take(n as int) =~= ext@);
        }
        if chars_eq_str(&low, "json") {
            Some(StorageFormat::Json)
        } else if chars_eq_str(&low, "toml") {
            Some(StorageFormat::Toml)
        } else {
            None
        }
    }
}

/// Compare collected characters with a fixed text.
fn chars_eq_str(v: &Vec<char>, s: &str) -> (r: bool)
    ensures
        r == (v@ == s@),
{
    let n = s.unicode_len();
    if v.len() != n {
        proof {
            assert(v@.len() != s@.len());
        }
        return false;
    }
    let mut i: usize = 0;
    while i < n
        invariant
            n == s@.len(),
            v@.len() == n,
            0 <= i <= n,
            forall|q: int| 0 <= q < i ==> v@[q] == s@[q],
        decreases n - i,
    {
        if v[i] != s.get_char(i) {
            proof {
                if v@ == s@ {
                    assert(v@[i as int] == s@[i as int]);
                }
            }
            return false;
        }
        i = i + 1;
    }
    proof {
        assert(v@ =~= s@);
    }
    true
}

/// What the persisted text of a catalog is, per format.
pub open spec fn spec_render(sv: Seq<FeatureView>, fmt: StorageFormat) -> Seq<char> {
    match fmt {
        StorageFormat::Json => crate::codec::render_json(sv),
        StorageFormat::Toml => crate::codec::render_toml(sv),
    }
}

/// What a persisted text parses to, per format.
pub open spec fn spec_parse(t: Seq<char>, fmt: StorageFormat) -> Option<Seq<FeatureView>> {
    match fmt {
        StorageFormat::Json => crate::codec::parse_json(t),
        StorageFormat::Toml => crate::codec::parse_toml(t),
    }
}

/// Round trip: a catalog rendered in either format parses back to itself,
/// field for field.
pub proof fn lemma_store_round_trip(sv: Seq<FeatureView>, fmt: StorageFormat)
    requires
        crate::codec::store_wf(sv),
    ensures
        spec_parse(spec_render(sv, fmt), fmt) == Some(sv),
{
    match fmt {
        StorageFormat::Json => crate::codec::lemma_parse_render_json(sv),
        StorageFormat::Toml => crate::codec::lemma_parse_render_toml(sv),
    }
}

/// A text of base64 characters alone — every encrypted blob, by `save`'s
/// contract — parses in neither format, so loading a sealed blob through a
/// plaintext store surfaces as exactly the format error, never as a catalog.
pub proof fn lemma_base64_text_is_no_catalog(t: Seq<char>, fmt: StorageFormat)
    requires
        forall|i: int| 0 <= i < t.len() ==> crate::crypto::is_base64_char(#[trigger] t[i]),
    ensures
        spec_parse(t, fmt) is None,
{
    match fmt {
        StorageFormat::Json => crate::codec::lemma_base64_text_parses_json_none(t),
        StorageFormat::Toml => crate::codec::lemma_base64_text_parses_toml_none(t),
    }
}

/// Errors of the store, each tied to the inputs that produce it.
#[derive(Debug, Clone, Copy, PartialEq, Eq, Structural)]
pub enum StorageError {
    /// The store is encrypted and no password was set.
    MissingPassword,
    /// There is nothing to export.
    NotFound,
    /// The cipher failed; carries which way.
    Cipher(CipherError),
    /// Decrypted bytes were not UTF-8 text.
    InvalidUtf8,
    /// The text is not a catalog in the configured format.
    InvalidFormat,
}

/// Relies on `String::from_utf8`: it succeeds exactly on valid UTF-8 and
/// decodes it.
#[verifier::external_body]
fn bytes_to_string(v: Vec<u8>) -> (r: Option<String>)
    ensures
        r is Some ==> vstd::utf8::valid_utf8(v@) && r->0@ == vstd::utf8::decode_utf8(v@),
        r is None ==> !vstd::utf8::valid_utf8(v@),
{
    String::from_utf8(v).ok()
}

/// The persisted store configuration and codec.
pub struct Storage {
    pub file_path: String,
    pub format: StorageFormat,
    pub encrypted: bool,
    pub encryption_password: Option<String>,
}

impl Storage {
    pub fn new(file_path: String, format: StorageFormat, encrypted: bool) -> (r: Storage)
        ensures
            r.file_path@ == file_path@,
            r.format == format,
            r.encrypted == encrypted,
            r.encryption_password is None,
    {
        Storage { file_path, format, encrypted, encryption_password: None }
    }

    /// Set the password used by the encrypted path.
    pub fn set_password(&mut self, password: String)
        ensures
            final(self).encryption_password == Some(password),
            final(self).file_path == old(self).file_path,
            final(self).format == old(self).format,
            final(self).encrypted == old(self).encrypted,
    {
        self.encryption_password = Some(password);
    }

    pub fn is_encrypted(&self) -> (r: bool)
        ensures
            r == self.encrypted,
    {
        self.encrypted
    }

    pub fn file_path(&self) -> (r: &str)
        ensures
            r@ == self.file_path@,
    {
        self.file_path.as_str()
    }

    fn parse_text(&self, t: &str) -> (r: Result<FeatureStore, StorageError>)
        ensures
            spec_parse(t@, self.format) is Some ==> r is Ok && r->Ok_0@ == spec_parse(
                t@,
                self.format,
            )->0,
            spec_parse(t@, self.format) is None ==> r == Err::<FeatureStore, StorageError>(
                StorageError::InvalidFormat,
            ),
    {
        let parsed = match self.format {
            StorageFormat::Json => crate::codec::parse_json_exec(t),
            StorageFormat::Toml => crate::codec::parse_toml_exec(t),
        };
        match parsed {
            Some(store) => Ok(store),
            None => Err(StorageError::InvalidFormat),
        }
    }

    /// Serialize the catalog in the configured format; on the encrypted path
    /// the text is sealed under a fresh nonce with the password-derived key.
    /// Without encryption the blob is exactly the canonical rendering; with
    /// it, the blob has the sealed shape for some fresh nonce, holds base64
    /// characters only, and is owed whenever the rendered text fits the
    /// cipher's and the encoding's length bounds.
    pub fn save(&self, store: &FeatureStore) -> (r: Result<String, StorageError>)
        ensures
            !self.encrypted ==> r is Ok && r->Ok_0@ == spec_render(store@, self.format),
            self.encrypted && self.encryption_password is None ==> r == Err::<String, StorageError>(
                StorageError::MissingPassword,
            ),
            self.encrypted && self.encryption_password is Some ==> ({
                let pw = self.encryption_password->0@;
                let rendered = vstd::utf8::encode_utf8(spec_render(store@, self.format));
                &&& r is Ok ==> exists|nonce: Seq<u8>|
                    nonce.len() == 12 && r->Ok_0@ == #[trigger] spec_sealed_blob(
                        pw,
                        nonce,
                        rendered,
                    )
                &&& r is Ok ==> forall|i: int|
                    0 <= i < r->Ok_0@.len() ==> crate::crypto::is_base64_char(
                        #[trigger] r->Ok_0@[i],
                    )
                &&& rendered.len() <= usize::MAX as int / 8 - 28 && rendered.len()
                    <= 0x10_0000_0000 ==> r is Ok
                &&& r is Err ==> r->Err_0 == StorageError::Cipher(CipherError::EncryptFailed)
            }),
    {
        let text = match self.format {
            StorageFormat::Json => crate::codec::render_json_exec(store),
            StorageFormat::Toml => crate::codec::render_toml_exec(store),
        };
        if self.encrypted {
            match &self.encryption_password {
                None => Err(StorageError::MissingPassword),
                Some(pw) => {
                    let bytes = text.as_str().as_bytes();
                    proof {
                        assert(bytes@ == vstd::utf8::encode_utf8(spec_render(store@, self.format)));
                    }
                    match StorageCipher::encrypt(pw.as_str(), bytes) {
                        Ok(blob) => {
                            proof {
                                let nonce = choose|nonce: Seq<u8>|
                                    nonce.len() == 12 && blob@ == #[trigger] spec_sealed_blob(
                                        pw@,
                                        nonce,
                                        bytes@,
                                    );
                                assert(nonce.len() == 12 && blob@ == spec_sealed_blob(
                                    self.encryption_password->0@,
                                    nonce,
                                    vstd::utf8::encode_utf8(spec_render(store@, self.format)),
                                ));
                            }
                            Ok(blob)
                        },
                        Err(e) => Err(StorageError::Cipher(e)),
                    }
                },
            }
        } else {
            Ok(text)
        }
    }

    /// Decode a persisted blob back into the catalog. A missing file is the
    /// empty catalog. On the encrypted path the blob is opened with the
    /// password-derived key first; every blob sealed under the same password
    /// whose text is a catalog comes back exactly, and each error names its
    /// cause.
    pub fn load(&self, content: Option<&str>) -> (r: Result<FeatureStore, StorageError>)
        ensures
            content is None ==> r is Ok && r->Ok_0@ == Seq::<FeatureView>::empty(),
            content is Some && self.encrypted && self.encryption_password is None ==> r == Err::<
                FeatureStore,
                StorageError,
            >(StorageError::MissingPassword),
            content is Some && !self.encrypted ==> ({
                let c = content->0@;
                &&& spec_parse(c, self.format) is Some ==> r is Ok && r->Ok_0@ == spec_parse(
                    c,
                    self.format,
                )->0
                &&& spec_parse(c, self.format) is None ==> r == Err::<FeatureStore, StorageError>(
                    StorageError::InvalidFormat,
                )
            }),
            content is Some && self.encrypted && self.encryption_password is Some ==> ({
                let c = content->0@;
                let pw = self.encryption_password->0@;
                &&& (r == Err::<FeatureStore, StorageError>(
                    StorageError::Cipher(CipherError::DecodeFailed),
                )) <==> !(exists|d: Seq<u8>| c == base64_of(d))
                &&& (r == Err::<FeatureStore, StorageError>(
                    StorageError::Cipher(CipherError::TooShort),
                )) <==> (exists|d: Seq<u8>| c == base64_of(d) && d.len() < 12)
                &&& (r == Err::<FeatureStore, StorageError>(
                    StorageError::Cipher(CipherError::AuthFailed),
                )) <==> (exists|d: Seq<u8>|
                    c == base64_of(d) && d.len() >= 12 && !(exists|p: Seq<u8>| d.skip(12)
                        == aes256_gcm_seal(spec_storage_key(pw), d.take(12), p)))
                &&& (r == Err::<FeatureStore, StorageError>(StorageError::InvalidUtf8)) <==> (
                exists|nonce: Seq<u8>, d: Seq<u8>|
                    nonce.len() == 12 && c == #[trigger] spec_sealed_blob(pw, nonce, d)
                        && !vstd::utf8::valid_utf8(d))
                &&& (r == Err::<FeatureStore, StorageError>(StorageError::InvalidFormat)) <==> (
                exists|nonce: Seq<u8>, d: Seq<u8>|
                    nonce.len() == 12 && c == #[trigger] spec_sealed_blob(pw, nonce, d)
                        && vstd::utf8::valid_utf8(d) && spec_parse(
                        vstd::utf8::decode_utf8(d),
                        self.format,
                    ) is None)
                &&& forall|nonce: Seq<u8>, d: Seq<u8>|
                    (nonce.len() == 12 && c == #[trigger] spec_sealed_blob(pw, nonce, d)
                        && vstd::utf8::valid_utf8(d) && spec_parse(
                        vstd::utf8::decode_utf8(d),
                        self.format,
                    ) is Some) ==> r is Ok && r->Ok_0@ == spec_parse(
                        vstd::utf8::decode_utf8(d),
                        self.format,
                    )->0
            }),
    {
        match content {
            None => Ok(FeatureStore::new()),
            Some(text) => {
                if self.encrypted {
                    match &self.encryption_password {
                        None => Err(StorageError::MissingPassword),
                        Some(pw) => {
                            match StorageCipher::decrypt(pw.as_str(), text) {
                                Err(e) => Err(StorageError::Cipher(e)),
                                Ok(bytes) => {
                                    let ghost db = bytes@;
                                    match bytes_to_string(bytes) {
                                        None => Err(StorageError::InvalidUtf8),
                                        Some(s) => {
                                            proof {
                                                broadcast use vstd::utf8::encode_utf8_decode_utf8;

                                            }
                                            self.parse_text(s.as_str())
                                        },
                                    }
                                },
                            }
                        },
                    }
                } else {
                    self.parse_text(text)
                }
            },
        }
    }

    /// Decrypt if needed and always render as TOML, for human inspection.
    /// The stored blob is not touched; a TOML store's text is returned
    /// verbatim, a JSON store's is re-rendered.
    pub fn export_decrypted(&self, content: Option<&str>) -> (r: Result<String, StorageError>)
        ensures
            content is None ==> r == Err::<String, StorageError>(StorageError::NotFound),
            content is Some && self.encrypted && self.encryption_password is None ==> r == Err::<
                String,
                StorageError,
            >(StorageError::MissingPassword),
            content is Some && !self.encrypted && self.format == StorageFormat::Toml ==> r is Ok
                && r->Ok_0@ == content->0@,
            content is Some && !self.encrypted && self.format == StorageFormat::Json ==> ({
                let c = content->0@;
                &&& crate::codec::parse_json(c) is Some ==> r is Ok && r->Ok_0@
                    == crate::codec::render_toml(crate::codec::parse_json(c)->0)
                &&& crate::codec::parse_json(c) is None ==> r == Err::<String, StorageError>(
                    StorageError::InvalidFormat,
                )
            }),
            content is Some && self.encrypted && self.encryption_password is Some ==> ({
                let c = content->0@;
                let pw = self.encryption_password->0@;
                &&& (r == Err::<String, StorageError>(
                    StorageError::Cipher(CipherError::DecodeFailed),
                )) <==> !(exists|d: Seq<u8>| c == base64_of(d))
                &&& (r == Err::<String, StorageError>(
                    StorageError::Cipher(CipherError::TooShort),
                )) <==> (exists|d: Seq<u8>| c == base64_of(d) && d.len() < 12)
                &&& (r == Err::<String, StorageError>(
                    StorageError::Cipher(CipherError::AuthFailed),
                )) <==> (exists|d: Seq<u8>|
                    c == base64_of(d) && d.len() >= 12 && !(exists|p: Seq<u8>| d.skip(12)
                        == aes256_gcm_seal(spec_storage_key(pw), d.take(12), p)))
                &&& (r == Err::<String, StorageError>(StorageError::InvalidUtf8)) <==> (exists|
                    nonce: Seq<u8>,
                    d: Seq<u8>,
                |
                    nonce.len() == 12 && c == #[trigger] spec_sealed_blob(pw, nonce, d)
                        && !vstd::utf8::valid_utf8(d))
                &&& forall|nonce: Seq<u8>, d: Seq<u8>|
                    (nonce.len() == 12 && c == #[trigger] spec_sealed_blob(pw, nonce, d)
                        && vstd::utf8::valid_utf8(d)) ==> ({
                        let text = vstd::utf8::decode_utf8(d);
                        &&& self.format == StorageFormat::Toml ==> r is Ok && r->Ok_0@ == text
                        &&& (self.format == StorageFormat::Json && crate::codec::parse_json(text)
                            is Some) ==> r is Ok && r->Ok_0@ == crate::codec::render_toml(
                            crate::codec::parse_json(text)->0,
                        )
                        &&& (self.format == StorageFormat::Json && crate::codec::parse_json(text)
                            is None) ==> r == Err::<String, StorageError>(
                            StorageError::InvalidFormat,
                        )
                    })
            }),
    {
        match content {
            None => Err(StorageError::NotFound),
            Some(text) => {
                let plain: String = if self.encrypted {
                    match &self.encryption_password {
                        None => {
                            return Err(StorageError::MissingPassword);
                        },
                        Some(pw) => {
                            match StorageCipher::decrypt(pw.as_str(), text) {
                                Err(e) => {
                                    return Err(StorageError::Cipher(e));
                                },
                                Ok(bytes) => {
                                    match bytes_to_string(bytes) {
                                        None => {
                                            return Err(StorageError::InvalidUtf8);
                                        },
                                        Some(s) => s,
                                    }
                                },
                            }
                        },
                    }
                } else {
                    text.to_owned()
                };
                match self.format {
                    StorageFormat::Toml => Ok(plain),
                    StorageFormat::Json => {
                        match crate::codec::parse_json_exec(plain.as_str()) {
                            None => Err(StorageError::InvalidFormat),
                            Some(store) => Ok(crate::codec::render_toml_exec(&store)),
                        }
                    },
                }
            },
        }
    }
}

} // verus!