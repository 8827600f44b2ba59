//! The production backend: age's streaming authenticated encryption to
//! X25519 recipients.

use vstd::prelude::*;

use age::x25519::Identity as X25519Identity;
use age::x25519::Recipient as X25519Key;

use crate::crypto::{self, recipient_models};

verus! {

#[verifier::external_type_specification]
#[verifier::external_body]
pub struct ExX25519Key(X25519Key);

#[verifier::external_type_specification]
#[verifier::external_body]
pub struct ExX25519Identity(X25519Identity);

#[verifier::external_type_specification]
#[verifier::external_body]
pub struct ExEncryptor(age::Encryptor);

#[verifier::external_type_specification]
#[verifier::external_body]
#[verifier::reject_recursive_types(W)]
pub struct ExStreamWriter<W>(age::stream::StreamWriter<W>);

#[verifier::external_type_specification]
#[verifier::external_body]
pub struct ExEncryptError(age::EncryptError);

#[verifier::external_type_specification]
#[verifier::external_body]
pub struct ExDecryptError(age::DecryptError);

#[verifier::external_type_specification]
#[verifier::external_body]
pub struct ExIoError(std::io::Error);

/// Whether age reads `s` as an X25519 recipient.
pub uninterp spec fn is_age_recipient(s: Seq<char>) -> bool;

/// Whether age reads `s` as an X25519 identity.
pub uninterp spec fn is_age_identity(s: Seq<char>) -> bool;

/// The plaintext that age decrypts from `c` with the identities the texts
/// `ids` name, or `None` when it fails.
pub uninterp spec fn age_plaintext(c: Seq<u8>, ids: Seq<Seq<char>>) -> Option<Seq<u8>>;

/// The texts of the given strings.
pub open spec fn texts_of(v: Seq<String>) -> Seq<Seq<char>> {
    v.map_values(|s: String| s@)
}

/// Relies on `age::x25519::Identity::to_string`: the uppercase Bech32 text,
/// which the identity's `FromStr` reads back.
#[verifier::external_body]
fn identity_text(i: &X25519Identity) -> (r: String)
    ensures
        is_age_identity(r@),
{
    age::secrecy::ExposeSecret::expose_secret(&i.to_string()).to_string()
}

/// Relies on `age::Decryptor::new`, `RecipientsDecryptor::decrypt` and
/// `StreamReader`'s `read_to_end`: the outcome depends on the ciphertext
/// and the identities alone, and with no identity none matches.
#[verifier::external_body]
fn age_decrypt(c: &[u8], ids: &Vec<String>) -> (r: Result<Vec<u8>, Error>)
    requires
        forall|i: int| 0 <= i < ids@.len() ==> is_age_identity(#[trigger] ids@[i]@),
    ensures
        match age_plaintext(c@, texts_of(ids@)) {
            Some(p) => r matches Ok(v) && v@ == p,
            None => r is Err,
        },
        ids@.len() == 0 ==> r is Err,
{
    let keys: Vec<X25519Identity> = ids.iter().map(|t| t.parse().unwrap()).collect();
    let d = match age::Decryptor::new(c).map_err(Error::Decrypt)? {
        age::Decryptor::Recipients(d) => d,
        age::Decryptor::Passphrase(_) => return Err(Error::NotForRecipients),
    };
    let keys = keys.iter().map(|k| k as &dyn age::Identity);
    let mut reader = d.decrypt(keys).map_err(Error::Decrypt)?;
    let mut out = Vec::new();
    std::io::Read::read_to_end(&mut reader, &mut out).map_err(Error::Io)?;
    Ok(out)
}

/// Relies on `X25519Key`'s `FromStr`: whether a text is a
/// recipient depends on the text alone.
#[verifier::external_body]
fn parse_recipient(s: &str) -> (r: Option<X25519Key>)
    ensures
        r is Some <==> is_age_recipient(s@),
{
    s.parse::<X25519Key>().ok()
}

/// Relies on `X25519Identity`'s `FromStr`: whether a text is an
/// identity depends on the text alone.
#[verifier::external_body]
fn parse_identity(s: &str) -> (r: Option<X25519Identity>)
    ensures
        r is Some <==> is_age_identity(s@),
{
    s.parse::<X25519Identity>().ok()
}

/// Relies on `age::Encryptor::with_recipients`: no encryptor for an empty
/// list of recipients.
#[verifier::external_body]
fn encryptor_for(recipients: Vec<X25519Key>) -> (r: Option<age::Encryptor>)
    ensures
        r is None <==> recipients@.len() == 0,
{
    age::Encryptor::with_recipients(
        recipients.into_iter().map(|x| Box::new(x) as Box<dyn age::Recipient + Send>).collect(),
    )
}

/// Relies on `age::Encryptor::wrap_output`: writes the header after what
/// `output` holds and gives the stream that encrypts what follows.
#[verifier::external_body]
fn wrap_output(encryptor: age::Encryptor, output: Vec<u8>) -> (r: Result<
    age::stream::StreamWriter<Vec<u8>>,
    age::EncryptError,
>) {
    encryptor.wrap_output(output)
}

/// Relies on `age::stream::StreamWriter`'s `Write::write_all`.
#[verifier::external_body]
fn stream_write(w: &mut age::stream::StreamWriter<Vec<u8>>, buf: &[u8]) -> (r: Result<
    (),
    std::io::Error,
>) {
    std::io::Write::write_all(w, buf)
}

/// Relies on `age::stream::StreamWriter`'s `Write::flush`.
#[verifier::external_body]
fn stream_flush(w: &mut age::stream::StreamWriter<Vec<u8>>) -> (r: Result<(), std::io::Error>) {
    std::io::Write::flush(w)
}

/// Relies on `age::stream::StreamWriter::finish`: writes the last chunk and
/// gives back the output.
#[verifier::external_body]
fn stream_finish(w: age::stream::StreamWriter<Vec<u8>>) -> (r: Result<Vec<u8>, std::io::Error>) {
    w.finish()
}

/// Why the age backend failed.
pub enum Error {
    /// Encryption was asked for with no recipient.
    NoRecipients,
    /// The file is protected by a passphrase, not by recipients.
    NotForRecipients,
    /// age could not start encrypting.
    Encrypt(age::EncryptError),
    /// age could not decrypt, for instance because no identity matches.
    Decrypt(age::DecryptError),
    /// The stream failed.
    Io(std::io::Error),
}

/// An X25519 recipient, with the text it was read from.
pub struct AgeRecipient {
    text: String,
    key: X25519Key,
}

impl View for AgeRecipient {
    type V = Seq<char>;

    closed spec fn view(&self) -> Seq<char> {
        self.text@
    }
}

impl crypto::Recipient for AgeRecipient {
    open spec fn parsed(text: Seq<char>) -> Option<Seq<char>> {
        if is_age_recipient(text) {
            Some(text)
        } else {
            None
        }
    }

    fn from_text(text: String) -> (r: Option<AgeRecipient>) {
        match parse_recipient(text.as_str()) {
            Some(key) => Some(AgeRecipient { text, key }),
            None => None,
        }
    }
}

/// The age backend, holding the texts of the identities it decrypts with.
pub struct Age {
    identities: Vec<String>,
}

impl View for Age {
    type V = Seq<Seq<char>>;

    closed spec fn view(&self) -> Seq<Seq<char>> {
        texts_of(self.identities@)
    }
}

impl Age {
    /// Every identity text held reads as an identity.
    #[verifier::type_invariant]
    spec fn identities_read(&self) -> bool {
        forall|i: int|
            0 <= i < self.identities@.len() ==> is_age_identity(#[trigger] self.identities@[i]@)
    }

    /// A backend that decrypts with the given identities.
    pub fn new(identities: Vec<X25519Identity>) -> (r: Age)
        ensures
            r@.len() == identities@.len(),
    {
        let mut texts: Vec<String> = Vec::new();
        let mut i: usize = 0;
        while i < identities.len()
            invariant
                i <= identities.len(),
                texts@.len() == i,
                forall|k: int| 0 <= k < i ==> is_age_identity(#[trigger] texts@[k]@),
            decreases identities.len() - i,
        {
            texts.push(identity_text(&identities[i]));
            i = i + 1;
        }
        Age { identities: texts }
    }

    /// A backend that decrypts with the identities the texts name; `None`
    /// when one of them names none.
    pub fn from_identity_texts(texts: &Vec<String>) -> (r: Option<Age>)
        ensures
            r is Some <==> forall|i: int|
                0 <= i < texts@.len() ==> is_age_identity(#[trigger] texts@[i]@),
            r matches Some(a) ==> a@ == texts_of(texts@),
    {
        let mut kept: Vec<String> = Vec::new();
        let mut i: usize = 0;
        while i < texts.len()
            invariant
                i <= texts.len(),
                kept@.len() == i,
                forall|k: int| 0 <= k < i ==> kept@[k]@ == texts@[k]@,
                forall|k: int| 0 <= k < i ==> is_age_identity(#[trigger] texts@[k]@),
            decreases texts.len() - i,
        {
            if parse_identity(texts[i].as_str()).is_none() {
                return None;
            }
            kept.push(texts[i].clone());
            i = i + 1;
        }
        assert(texts_of(kept@) =~= texts_of(texts@));
        Some(Age { identities: kept })
    }

    /// Starts a sink over `output` that encrypts to `recipients`, handing
    /// their keys to age in order. With no recipient it fails before
    /// anything is written; otherwise only age's own failure to start can
    /// stop it.
    pub fn encrypt_output(&self, output: Vec<u8>, recipients: Vec<AgeRecipient>) -> (r: Result<
        EncryptedWriter,
        Error,
    >)
        ensures
            recipients@.len() == 0 <==> r matches Err(Error::NoRecipients),
            recipients@.len() > 0 ==> (r is Ok || r matches Err(Error::Encrypt(_))),
            r matches Ok(w) ==> w@ == (
                recipients@.map_values(|x: AgeRecipient| x@),
                Seq::<u8>::empty(),
            ),
    {
        let ghost named = recipients@.map_values(|x: AgeRecipient| x@);
        let ghost given = recipients@;
        let mut keys: Vec<X25519Key> = Vec::new();
        let mut rs = recipients;
        while rs.len() > 0
            invariant
                keys@.len() + rs@.len() == given.len(),
                rs@ == given.skip(keys@.len() as int),
                forall|k: int| 0 <= k < keys@.len() ==> keys@[k] == given[k].key,
            decreases rs@.len(),
        {
            let x = rs.remove(0);
            assert(x == given[keys@.len() as int]);
            assert(rs@ =~= given.skip((keys@.len() + 1) as int));
            keys.push(x.key);
        }
        let encryptor = match encryptor_for(keys) {
            Some(e) => e,
            None => {
                return Err(Error::NoRecipients);
            },
        };
        match wrap_output(encryptor, output) {
            Ok(w) => Ok(
                EncryptedWriter { stream: w, recipients: Ghost(named), written: Ghost(Seq::empty()) },
            ),
            Err(e) => Err(Error::Encrypt(e)),
        }
    }

    /// The plaintext of `ciphertext`, decrypted with the held identities:
    /// exactly what age decrypts. Fails when no identity is held, since
    /// none can match.
    pub fn decrypt_input(&self, ciphertext: &[u8]) -> (r: Result<Vec<u8>, Error>)
        ensures
            match age_plaintext(ciphertext@, self@) {
                Some(p) => r matches Ok(v) && v@ == p,
                None => r is Err,
            },
            self@.len() == 0 ==> r is Err,
    {
        proof {
            use_type_invariant(self);
        }
        age_decrypt(ciphertext, &self.identities)
    }
}

/// A sink that encrypts what is written to it.
pub struct EncryptedWriter {
    stream: age::stream::StreamWriter<Vec<u8>>,
    recipients: Ghost<Seq<Seq<char>>>,
    written: Ghost<Seq<u8>>,
}

impl View for EncryptedWriter {
    type V = (Seq<Seq<char>>, Seq<u8>);

    /// The texts of the recipients encrypted to, and the plaintext written.
    closed spec fn view(&self) -> (Seq<Seq<char>>, Seq<u8>) {
        (self.recipients@, self.written@)
    }
}

impl EncryptedWriter {
    /// Encrypts `buf` into the sink.
    pub fn write(&mut self, buf: &[u8]) -> (r: Result<(), Error>)
        ensures
            r is Ok || r matches Err(Error::Io(_)),
            final(self)@.0 == old(self)@.0,
            r is Ok ==> final(self)@.1 == old(self)@.1 + buf@,
    {
        match stream_write(&mut self.stream, buf) {
            Ok(()) => {
                self.written = Ghost(self.written@ + buf@);
                Ok(())
            },
            Err(e) => Err(Error::Io(e)),
        }
    }

    /// Flushes what the stream holds to the output.
    pub fn flush(&mut self) -> (r: Result<(), Error>)
        ensures
            r is Ok || r matches Err(Error::Io(_)),
            final(self)@ == old(self)@,
    {
        match stream_flush(&mut self.stream) {
            Ok(()) => Ok(()),
            Err(e) => Err(Error::Io(e)),
        }
    }

    /// Writes the last chunk and gives back the output. Without it the
    /// output cannot be decrypted.
    pub fn finish(self) -> (r: Result<Vec<u8>, Error>)
        ensures
            r is Ok || r matches Err(Error::Io(_)),
    {
        match stream_finish(self.stream) {
            Ok(output) => Ok(output),
            Err(e) => Err(Error::Io(e)),
        }
    }
}

impl crypto::Backend for Age {
    type Recipient = AgeRecipient;
    type Error = Error;

    open spec fn plaintext(&self, c: Seq<u8>) -> Option<Seq<u8>> {
        age_plaintext(c, self@)
    }

    /// age's output is random: nothing is promised of it.
    open spec fn sealed(&self, recipients: Seq<Seq<char>>, plaintext: Seq<u8>, out: Seq<u8>) -> bool {
        true
    }

    /// age can fail to start encrypting, whatever the recipients.
    open spec fn seals(&self, recipients: Seq<Seq<char>>) -> bool {
        false
    }

    fn seal(&self, recipients: Vec<AgeRecipient>, plaintext: &[u8]) -> (r: Result<Vec<u8>, Error>) {
        let mut sink = self.encrypt_output(Vec::new(), recipients)?;
        sink.write(plaintext)?;
        sink.finish()
    }

    fn open(&self, c: &[u8]) -> (r: Result<Vec<u8>, Error>) {
        self.decrypt_input(c)
    }
}

} // verus!
