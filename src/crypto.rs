//! What a crypto backend offers the vault: recipients that can be read from
//! text, sealing a plaintext for recipients, and opening it again.

use vstd::prelude::*;

verus! {

/// A public credential that a backend encrypts to, read from its text.
pub trait Recipient: View + Sized {
    /// What the text names: the model of a recipient, or `None` for text
    /// that names none.
    spec fn parsed(text: Seq<char>) -> Option<Self::V>;

    /// The recipient that `text` names.
    fn from_text(text: String) -> (r: Option<Self>)
        ensures
            match Self::parsed(text@) {
                Some(m) => r matches Some(x) && x@ == m,
                None => r is None,
            },
    ;
}

/// The models of the given recipients.
pub open spec fn recipient_models<R: Recipient>(rs: Seq<R>) -> Seq<R::V> {
    rs.map_values(|x: R| x@)
}

/// A crypto backend: it seals a plaintext for recipients so that its
/// stored bytes are ciphertext, and opens stored bytes again.
pub trait Backend: Sized {
    type Recipient: Recipient;
    type Error;

    /// The plaintext this backend opens from `c`, or `None` when it cannot.
    spec fn plaintext(&self, c: Seq<u8>) -> Option<Seq<u8>>;

    /// Whether `out` may be what sealing `plaintext` for `recipients` gives.
    spec fn sealed(
        &self,
        recipients: Seq<<Self::Recipient as View>::V>,
        plaintext: Seq<u8>,
        out: Seq<u8>,
    ) -> bool;

    /// Whether sealing for `recipients` cannot fail.
    spec fn seals(&self, recipients: Seq<<Self::Recipient as View>::V>) -> bool;

    /// Seals `plaintext` for `recipients`.
    fn seal(&self, recipients: Vec<Self::Recipient>, plaintext: &[u8]) -> (r: Result<
        Vec<u8>,
        Self::Error,
    >)
        ensures
            r matches Ok(o) ==> self.sealed(recipient_models(recipients@), plaintext@, o@),
            self.seals(recipient_models(recipients@)) ==> r is Ok,
    ;

    /// Opens the stored bytes `c`.
    fn open(&self, c: &[u8]) -> (r: Result<Vec<u8>, Self::Error>)
        ensures
            match self.plaintext(c@) {
                Some(p) => r matches Ok(v) && v@ == p,
                None => r is Err,
            },
    ;
}

} // verus!
