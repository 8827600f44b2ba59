//! The vault's operations: initializing a vault, creating an entry and
//! listing entries, from values the front end has read.

use std::collections::HashMap;

use vstd::prelude::*;
use vstd::utf8::{decode_utf8, encode_utf8, valid_utf8};

use crate::crypto::{recipient_models, Backend, Recipient};
use crate::entry_id::random_entry_id;
use crate::kvstore::{
    decode, display_text, encode, error_text, field_round_trips, key_of_text, lemma_round_trip,
    parse_lines, DisplayModel, DisplayOptions, ErrorModel, FieldModel, Key, KeyModel,
    KeyValuePair, KvStore, Value, ValueModel,
};
use crate::storage::{
    add_entry_outcome, entries_dir, join, join_path, Directory, File, Filesystem, PathKind,
    StorageError,
};
use crate::text::push_char;
use crate::transparent::{header, lemma_header_round_trip, single_lines, Transparent};

verus! {

/// Whether secret material is shown.
#[derive(PartialEq, Eq, Structural, Clone, Copy, Debug)]
pub enum SecretVisibility {
    Show,
    Hide,
}

impl Default for SecretVisibility {
    fn default() -> (r: SecretVisibility)
        ensures
            r == SecretVisibility::Hide,
    {
        SecretVisibility::Hide
    }
}

/// Why an operation failed.
pub enum Error {
    /// The storage refused the operation.
    Storage(StorageError),
    /// A record could not be read.
    Filetype(crate::kvstore::Error),
    /// A recipient text names no recipient; it holds the text.
    InvalidRecipient(String),
    /// An entry's stored bytes could not be read.
    Unreadable,
    /// The crypto backend could not seal or open an entry.
    Crypto,
}

/// The default vault location below the home directory `home`.
pub open spec fn store_path(home: Seq<char>) -> Seq<char> {
    join(join(join(home, ".local"@), "share"@), "ciphey"@)
}

/// The default vault location below the home directory `home`:
/// `.local/share/ciphey`.
pub fn store_dir(home: &str) -> (r: String)
    ensures
        r@ == store_path(home@),
{
    let local = join_path(&String::from_str(home), ".local");
    let share = join_path(&local, "share");
    join_path(&share, "ciphey")
}

/// Initializes a vault: gives the entries directory to create, given what
/// exists at its path.
pub fn init(storage: &Filesystem, entries_kind: PathKind) -> (r: Result<Directory, Error>)
    ensures
        entries_kind == PathKind::File ==> (r matches Err(Error::Storage(e)) && e
            == StorageError::NotADirectory),
        entries_kind == PathKind::Directory ==> (r matches Err(Error::Storage(e)) && e
            == StorageError::AlreadyExists),
        entries_kind == PathKind::Missing ==> (r matches Ok(d) && d@ == entries_dir(storage@)),
{
    match storage.create(entries_kind) {
        Ok(d) => Ok(d),
        Err(e) => Err(Error::Storage(e)),
    }
}

/// Reads fields from their lines, as `key[!]=value`.
pub fn parse_key_value_pairs(key_value_pairs: &Vec<String>) -> (r: Result<Vec<KeyValuePair>, Error>)
    ensures
        match parse_lines(key_value_pairs@.map_values(|s: String| s@)) {
            Ok(m) => r matches Ok(v) && v@.map_values(|p: KeyValuePair| p@) == m,
            Err(l) => r matches Err(Error::Filetype(e)) && e@ == ErrorModel::MissingDelimeter(l),
        },
{
    let ghost ls = key_value_pairs@.map_values(|s: String| s@);
    let mut pairs: Vec<KeyValuePair> = Vec::new();
    let mut i: usize = 0;
    assert(ls.skip(0) == ls);
    proof {
        if let Ok(rest) = parse_lines(ls) {
            assert(pairs@.map_values(|p: KeyValuePair| p@) + rest =~= rest);
        }
    }
    while i < key_value_pairs.len()
        invariant
            i <= key_value_pairs.len(),
            ls == key_value_pairs@.map_values(|s: String| s@),
            parse_lines(ls) == match parse_lines(ls.skip(i as int)) {
                Ok(rest) => Ok(pairs@.map_values(|p: KeyValuePair| p@) + rest),
                Err(e) => Err(e),
            },
        decreases key_value_pairs.len() - i,
    {
        assert(ls.skip(i as int)[0] == key_value_pairs@[i as int]@);
        assert(ls.skip(i as int).drop_first() == ls.skip(i + 1));
        match KeyValuePair::from_str(key_value_pairs[i].as_str()) {
            Ok(p) => {
                let ghost before = pairs@.map_values(|p: KeyValuePair| p@);
                pairs.push(p);
                assert(pairs@.map_values(|p: KeyValuePair| p@) == before.push(p@));
                proof {
                    if let Ok(rest) = parse_lines(ls.skip(i + 1)) {
                        assert(before + (seq![p@] + rest) =~= before.push(p@) + rest);
                    }
                }
            },
            Err(e) => {
                return Err(Error::Filetype(e));
            },
        }
        i = i + 1;
    }
    assert(ls.skip(i as int) == Seq::<Seq<char>>::empty());
    assert(pairs@.map_values(|p: KeyValuePair| p@) + Seq::<FieldModel>::empty() == pairs@.map_values(
        |p: KeyValuePair| p@,
    ));
    Ok(pairs)
}

/// `i` is the first text that names no recipient.
pub open spec fn first_unparsed<R: Recipient>(ts: Seq<String>, i: int) -> bool {
    &&& 0 <= i < ts.len()
    &&& R::parsed(ts[i]@) is None
    &&& forall|k: int| 0 <= k < i ==> R::parsed(#[trigger] ts[k]@) is Some
}

/// Reads recipients from their texts; fails on the first text that names
/// none.
pub fn parse_recipients<R: Recipient>(recipients: &Vec<String>) -> (r: Result<Vec<R>, Error>)
    ensures
        (forall|i: int|
            0 <= i < recipients@.len() ==> R::parsed(#[trigger] recipients@[i]@) is Some) ==> (
        r matches Ok(v) && v@.len() == recipients@.len() && forall|i: int|
            0 <= i < v@.len() ==> Some(#[trigger] v@[i]@) == R::parsed(recipients@[i]@)),
        forall|i: int|
            #[trigger] first_unparsed::<R>(recipients@, i) ==> (r matches Err(
                Error::InvalidRecipient(t),
            ) && t@ == recipients@[i]@),
{
    let mut parsed: Vec<R> = Vec::new();
    let mut i: usize = 0;
    while i < recipients.len()
        invariant
            i <= recipients.len(),
            parsed@.len() == i,
            forall|k: int|
                0 <= k < i ==> R::parsed(#[trigger] recipients@[k]@) is Some && Some(
                    parsed@[k]@,
                ) == R::parsed(recipients@[k]@),
        decreases recipients.len() - i,
    {
        match R::from_text(recipients[i].clone()) {
            Some(x) => {
                parsed.push(x);
            },
            None => {
                proof {
                    let ts = recipients@;
                    assert forall|j: int| #[trigger] first_unparsed::<R>(ts, j) implies j == i by {
                        if j < i {
                            assert(R::parsed(recipients@[j]@) is Some);
                        } else if j > i {
                            assert(R::parsed(ts[i as int]@) is Some);
                        }
                    }
                }
                return Err(Error::InvalidRecipient(recipients[i].clone()));
            },
        }
        i = i + 1;
    }
    proof {
        let ts = recipients@;
        assert forall|j: int| !#[trigger] first_unparsed::<R>(ts, j) by {
            if first_unparsed::<R>(ts, j) {
                assert(R::parsed(recipients@[j]@) is Some);
            }
        }
    }
    Ok(parsed)
}

/// What the front end gathered for a new entry.
pub struct NewEntry {
    /// The entry's name.
    pub name: String,
    /// The entry's secret.
    pub secret: String,
    /// The texts of the recipients to encrypt to.
    pub recipients: Vec<String>,
    /// Further fields, each written `key[!]=value`.
    pub fields: Vec<String>,
}

/// A new entry, ready to be written.
pub struct Created {
    /// The entry's identifier.
    pub id: u128,
    /// Where the entry is to be written; the file must not exist yet.
    pub file: File,
    /// The bytes to write.
    pub contents: Vec<u8>,
}

/// The record of a new entry: the name, then the secret, then the other
/// fields in order.
pub open spec fn new_record(name: Seq<char>, secret: Seq<char>, fields: Seq<FieldModel>) -> Seq<
    FieldModel,
> {
    seq![
        (KeyModel::Name, ValueModel::Insensitive(name)),
        (key_of_text("secret"@), ValueModel::Sensitive(secret)),
    ] + fields
}

/// The texts of the given strings.
pub open spec fn texts(v: Seq<String>) -> Seq<Seq<char>> {
    v.map_values(|s: String| s@)
}

/// The bytes stored for a new entry: the transparent header for the
/// recipients, then the record's text, in UTF-8.
pub open spec fn stored_bytes(recipients: Seq<Seq<char>>, record: Seq<FieldModel>) -> Seq<u8> {
    encode_utf8(header(recipients)) + encode_utf8(encode(record))
}

/// The identifiers that a new entry may not take: those found among the
/// entries and those the vault has allocated.
pub open spec fn taken(found: Set<u128>, allocated: Set<u128>) -> Set<u128> {
    found.union(allocated)
}

/// Every recipient text names a recipient.
pub open spec fn all_parse<R: Recipient>(ts: Seq<Seq<char>>) -> bool {
    forall|i: int| 0 <= i < ts.len() ==> (#[trigger] R::parsed(ts[i])) is Some
}

/// The recipients the texts name.
pub open spec fn parsed_all<R: Recipient>(ts: Seq<Seq<char>>) -> Seq<R::V> {
    ts.map_values(|t: Seq<char>| R::parsed(t)->0)
}

/// The bytes of the record of a new entry, before sealing.
pub open spec fn record_bytes(opts: NewEntry, fields: Seq<FieldModel>) -> Seq<u8> {
    encode_utf8(encode(new_record(opts.name@, opts.secret@, fields)))
}

/// Creates the entry `id`: reads its recipients and fields, builds its
/// record, seals the record's bytes for the recipients, and allocates its
/// reference among the `existing` entries. A failure allocates nothing.
pub fn create_entry<C: Backend>(
    opts: &NewEntry,
    crypto: &C,
    storage: &mut Filesystem,
    id: u128,
    entries_kind: PathKind,
    existing: &HashMap<u128, File>,
) -> (r: Result<Created, Error>)
    ensures
        final(storage)@ == old(storage)@,
        r is Ok ==> final(storage).allocated() == old(storage).allocated().insert(id),
        r is Err ==> final(storage).allocated() == old(storage).allocated(),
        forall|i: int| #[trigger]
            first_unparsed::<C::Recipient>(opts.recipients@, i) ==> (r matches Err(
                Error::InvalidRecipient(t),
            ) && t@ == opts.recipients@[i]@),
        all_parse::<C::Recipient>(texts(opts.recipients@)) ==> match parse_lines(
            texts(opts.fields@),
        ) {
            Err(l) => r matches Err(Error::Filetype(e)) && e@ == ErrorModel::MissingDelimeter(l),
            Ok(fields) => {
                let rs = parsed_all::<C::Recipient>(texts(opts.recipients@));
                &&& r matches Err(Error::Crypto) ==> !crypto.seals(rs)
                &&& !(r matches Err(Error::Crypto)) ==> match add_entry_outcome(
                    old(storage)@,
                    id,
                    entries_kind,
                    taken(existing@.dom(), old(storage).allocated()),
                ) {
                    Err(e) => r matches Err(Error::Storage(x)) && x == e,
                    Ok(p) => r matches Ok(c) && c.id == id && c.file@ == p && crypto.sealed(
                        rs,
                        record_bytes(*opts, fields),
                        c.contents@,
                    ),
                }
            },
        },
{
    proof {
        if all_parse::<C::Recipient>(texts(opts.recipients@)) {
            assert forall|i: int| 0 <= i < opts.recipients@.len() implies (#[trigger] C::Recipient::parsed(
                opts.recipients@[i]@,
            )) is Some by {
                assert(texts(opts.recipients@)[i] == opts.recipients@[i]@);
            }
        }
    }
    let recipients = match parse_recipients::<C::Recipient>(&opts.recipients) {
        Ok(v) => v,
        Err(e) => {
            return Err(e);
        },
    };
    let ghost rs = parsed_all::<C::Recipient>(texts(opts.recipients@));
    proof {
        if all_parse::<C::Recipient>(texts(opts.recipients@)) {
            assert forall|i: int| 0 <= i < recipients@.len() implies recipient_models(recipients@)[i]
                == rs[i] by {
                assert(Some(recipients@[i]@) == C::Recipient::parsed(opts.recipients@[i]@));
            }
            assert(recipient_models(recipients@) =~= rs);
        }
    }
    let mut pairs = parse_key_value_pairs(&opts.fields)?;
    let ghost fields = pairs@.map_values(|p: KeyValuePair| p@);
    pairs.insert(0, KeyValuePair::new(Key::Name, Value::Insensitive(opts.name.clone())));
    pairs.insert(1, KeyValuePair::new(Key::from_str("secret"), Value::Sensitive(opts.secret.clone())));
    assert(pairs@.map_values(|p: KeyValuePair| p@) =~= new_record(opts.name@, opts.secret@, fields));
    let store = KvStore::new(pairs);
    let plaintext = store.serialize();
    let contents = match crypto.seal(recipients, plaintext.as_slice()) {
        Ok(o) => o,
        Err(_) => {
            return Err(Error::Crypto);
        },
    };
    let file = match storage.add_entry(id, entries_kind, existing) {
        Ok(f) => f,
        Err(e) => {
            return Err(Error::Storage(e));
        },
    };
    Ok(Created { id, file, contents })
}

/// Creates an entry under a freshly drawn random identifier, as
/// [`create_entry`] does for that identifier. Once the recipients and
/// fields are read, the entries directory is not a file and the backend
/// cannot fail, only the drawn identifier being taken already can make it
/// fail.
pub fn new<C: Backend>(
    opts: &NewEntry,
    crypto: &C,
    storage: &mut Filesystem,
    entries_kind: PathKind,
    existing: &HashMap<u128, File>,
) -> (r: Result<Created, Error>)
    ensures
        final(storage)@ == old(storage)@,
        forall|i: int| #[trigger]
            first_unparsed::<C::Recipient>(opts.recipients@, i) ==> (r matches Err(
                Error::InvalidRecipient(t),
            ) && t@ == opts.recipients@[i]@),
        all_parse::<C::Recipient>(texts(opts.recipients@)) ==> match parse_lines(
            texts(opts.fields@),
        ) {
            Err(l) => r matches Err(Error::Filetype(e)) && e@ == ErrorModel::MissingDelimeter(l),
            Ok(fields) => {
                let rs = parsed_all::<C::Recipient>(texts(opts.recipients@));
                let t = taken(existing@.dom(), old(storage).allocated());
                &&& entries_kind != PathKind::File && t == Set::<u128>::empty() && crypto.seals(rs)
                    ==> r is Ok
                &&& match r {
                    Ok(c) => {
                        &&& add_entry_outcome(old(storage)@, c.id, entries_kind, t) == Ok::<
                            Seq<char>,
                            StorageError,
                        >(c.file@)
                        &&& crypto.sealed(rs, record_bytes(*opts, fields), c.contents@)
                        &&& final(storage).allocated() == old(storage).allocated().insert(c.id)
                    },
                    Err(Error::Storage(e)) => {
                        ||| entries_kind == PathKind::File && e == StorageError::NotADirectory
                        ||| entries_kind != PathKind::File && e == StorageError::AlreadyExists
                            && t != Set::<u128>::empty()
                    },
                    Err(Error::Crypto) => !crypto.seals(rs),
                    Err(_) => false,
                }
            },
        },
{
    let id = random_entry_id();
    let r = create_entry(opts, crypto, storage, id, entries_kind, existing);
    proof {
        let t = taken(existing@.dom(), old(storage).allocated());
        if t.contains(id) {
            assert(!Set::<u128>::empty().contains(id));
        }
        if t == Set::<u128>::empty() {
            assert(!t.contains(id));
        }
    }
    r
}

/// What the front end gathered for a listing.
pub struct List {
    /// Show every field of each entry.
    pub all: bool,
    /// Do not show the default keys.
    pub no_default: bool,
    /// Further keys to show, by their text.
    pub display: Vec<String>,
    /// Leave out the count of entries.
    pub quiet: bool,
    /// Stop at the first entry that cannot be read, instead of reporting it
    /// and going on.
    pub fail_fast: bool,
}

/// The keys shown by default.
pub open spec fn default_keys() -> Seq<KeyModel> {
    seq![KeyModel::Name, KeyModel::Username, KeyModel::Email, KeyModel::Url]
}

/// The display options of a listing.
pub open spec fn list_display(all: bool, no_default: bool, display: Seq<Seq<char>>) -> DisplayModel {
    (
        all,
        (if no_default {
            seq![]
        } else {
            default_keys()
        }) + display.map_values(|t: Seq<char>| key_of_text(t)),
    )
}

/// Why an entry cannot be shown.
pub enum FailureModel {
    /// Its stored bytes could not be read.
    Unreadable,
    /// The backend could not open them.
    Undecryptable,
    /// The record inside could not be read.
    Record(ErrorModel),
}

/// What an entry's stored bytes display as, or why it cannot be shown.
#[verifier::opaque]
pub open spec fn entry_text<C: Backend>(
    crypto: C,
    c: Option<Seq<u8>>,
    opts: DisplayModel,
    reveal: bool,
) -> Result<Seq<char>, FailureModel> {
    match c {
        None => Err(FailureModel::Unreadable),
        Some(c) => match crypto.plaintext(c) {
            None => Err(FailureModel::Undecryptable),
            Some(body) => if !valid_utf8(body) {
                Err(FailureModel::Record(ErrorModel::InvalidUtf8))
            } else {
                match decode(decode_utf8(body)) {
                    Ok(m) => Ok(display_text(m, opts, reveal)),
                    Err(l) => Err(FailureModel::Record(ErrorModel::MissingDelimeter(l))),
                }
            },
        },
    }
}

/// The message for an entry that cannot be shown.
pub open spec fn failure_text(f: FailureModel) -> Seq<char> {
    match f {
        FailureModel::Unreadable => "entry could not be read"@,
        FailureModel::Undecryptable => "entry could not be decrypted"@,
        FailureModel::Record(e) => error_text(e),
    }
}

/// Whether `r` is the error a listing fails with for `f`.
pub open spec fn failure_error(f: FailureModel, r: Error) -> bool {
    match f {
        FailureModel::Unreadable => r matches Error::Unreadable,
        FailureModel::Undecryptable => r matches Error::Crypto,
        FailureModel::Record(e) => r matches Error::Filetype(x) && x@ == e,
    }
}

/// The stored bytes of the given entries, `None` where they could not be
/// read.
pub open spec fn entry_models(v: Seq<Option<Vec<u8>>>) -> Seq<Option<Seq<u8>>> {
    v.map_values(
        |c: Option<Vec<u8>>|
            match c {
                Some(b) => Some(b@),
                None => None,
            },
    )
}

/// The sections of a listing: for each entry a `---` line and its display;
/// an entry that cannot be read fails the listing when `fail_fast` holds,
/// and is otherwise shown as an `error: ` line.
pub open spec fn sections<C: Backend>(
    crypto: C,
    es: Seq<Option<Seq<u8>>>,
    opts: DisplayModel,
    reveal: bool,
    fail_fast: bool,
) -> Result<Seq<char>, FailureModel>
    decreases es.len(),
{
    if es.len() == 0 {
        Ok(seq![])
    } else {
        let this = match entry_text(crypto, es[0], opts, reveal) {
            Ok(t) => Ok(t),
            Err(e) => if fail_fast {
                Err(e)
            } else {
                Ok("error: "@ + failure_text(e) + seq!['\n'])
            },
        };
        match this {
            Err(e) => Err(e),
            Ok(t) => combine(
                "---"@ + seq!['\n'] + t,
                sections(crypto, es.drop_first(), opts, reveal, fail_fast),
            ),
        }
    }
}

/// `r` with `prefix` before its text.
pub open spec fn combine(prefix: Seq<char>, r: Result<Seq<char>, FailureModel>) -> Result<
    Seq<char>,
    FailureModel,
> {
    match r {
        Ok(u) => Ok(prefix + u),
        Err(e) => Err(e),
    }
}

proof fn lemma_combine(a: Seq<char>, b: Seq<char>, r: Result<Seq<char>, FailureModel>)
    ensures
        combine(a, combine(b, r)) == combine(a + b, r),
{
    if let Ok(u) = r {
        assert(a + (b + u) =~= a + b + u);
    }
}

/// The decimal digit for `d`, which is below 10.
pub open spec fn digit(d: nat) -> char {
    ((48 + d) as u8) as char
}

/// The decimal text of `n`.
pub open spec fn decimal(n: nat) -> Seq<char>
    decreases n,
{
    if n < 10 {
        seq![digit(n)]
    } else {
        decimal(n / 10).push(digit(n % 10))
    }
}

/// The first line of a listing of `n` entries.
pub open spec fn count_line(n: nat) -> Seq<char> {
    "Found "@ + decimal(n) + " "@ + (if n == 1 {
        "Entry"@
    } else {
        "Entries"@
    }) + seq!['\n']
}

/// The decimal text of `n`.
fn decimal_string(n: usize) -> (r: String)
    ensures
        r@ == decimal(n as nat),
    decreases n,
{
    if n < 10 {
        let mut s = String::new();
        push_char(&mut s, ((48 + n) as u8) as char);
        s
    } else {
        let mut s = decimal_string(n / 10);
        push_char(&mut s, ((48 + n % 10) as u8) as char);
        s
    }
}

/// The display options of a listing, as [`list_display`] states.
fn list_options(opts: &List) -> (r: DisplayOptions)
    ensures
        r@ == list_display(opts.all, opts.no_default, texts(opts.display@)),
{
    let mut keys: Vec<Key> = Vec::new();
    if !opts.no_default {
        keys.push(Key::Name);
        keys.push(Key::Username);
        keys.push(Key::Email);
        keys.push(Key::Url);
    }
    let ghost defaults = keys@.map_values(|k: Key| k@);
    assert(defaults =~= if opts.no_default {
        seq![]
    } else {
        default_keys()
    });
    let ghost ts = texts(opts.display@);
    let mut j: usize = 0;
    assert(keys@.map_values(|k: Key| k@) =~= defaults + ts.take(0).map_values(
        |t: Seq<char>| key_of_text(t),
    ));
    while j < opts.display.len()
        invariant
            j <= opts.display.len(),
            ts == texts(opts.display@),
            keys@.map_values(|k: Key| k@) == defaults + ts.take(j as int).map_values(
                |t: Seq<char>| key_of_text(t),
            ),
        decreases opts.display.len() - j,
    {
        let k = Key::from_str(opts.display[j].as_str());
        let ghost before = keys@.map_values(|k: Key| k@);
        keys.push(k);
        assert(keys@.map_values(|k: Key| k@) =~= before.push(k@));
        assert(ts.take(j + 1).map_values(|t: Seq<char>| key_of_text(t)) =~= ts.take(
            j as int,
        ).map_values(|t: Seq<char>| key_of_text(t)).push(key_of_text(ts[j as int])));
        assert(keys@.map_values(|k: Key| k@) =~= defaults + ts.take(j + 1).map_values(
            |t: Seq<char>| key_of_text(t),
        ));
        j = j + 1;
    }
    assert(ts.take(j as int) == ts);
    DisplayOptions { show_all: opts.all, enabled_keys: keys }
}

/// Why an entry cannot be shown.
enum Failure {
    Unreadable,
    Undecryptable,
    Record(crate::kvstore::Error),
}

impl View for Failure {
    type V = FailureModel;

    closed spec fn view(&self) -> FailureModel {
        match self {
            Failure::Unreadable => FailureModel::Unreadable,
            Failure::Undecryptable => FailureModel::Undecryptable,
            Failure::Record(e) => FailureModel::Record(e@),
        }
    }
}

/// What one entry's stored bytes display as, as [`entry_text`] states.
fn entry_section<C: Backend>(
    crypto: &C,
    c: &Option<Vec<u8>>,
    dopts: &DisplayOptions,
    show: bool,
) -> (r: Result<String, Failure>)
    ensures
        match entry_text(
            *crypto,
            match c {
                Some(b) => Some(b@),
                None => None,
            },
            dopts@,
            show,
        ) {
            Ok(t) => r matches Ok(s) && s@ == t,
            Err(f) => r matches Err(x) && x@ == f,
        },
{
    reveal(entry_text);
    let bytes = match c {
        Some(b) => b,
        None => {
            return Err(Failure::Unreadable);
        },
    };
    let body = match crypto.open(bytes.as_slice()) {
        Ok(p) => p,
        Err(_) => {
            return Err(Failure::Undecryptable);
        },
    };
    match KvStore::deserialize(body.as_slice()) {
        Ok(store) => Ok(store.display(dopts, show)),
        Err(e) => Err(Failure::Record(e)),
    }
}

/// The message for an entry that cannot be shown, as [`failure_text`]
/// states.
fn failure_string(f: &Failure) -> (r: String)
    ensures
        r@ == failure_text(f@),
{
    match f {
        Failure::Unreadable => String::from_str("entry could not be read"),
        Failure::Undecryptable => String::from_str("entry could not be decrypted"),
        Failure::Record(e) => e.to_string(),
    }
}

/// The error a listing fails with for an entry that cannot be shown.
fn error_of(f: Failure) -> (r: Error)
    ensures
        failure_error(f@, r),
{
    match f {
        Failure::Unreadable => Error::Unreadable,
        Failure::Undecryptable => Error::Crypto,
        Failure::Record(e) => Error::Filetype(e),
    }
}

/// The sections of a listing, as [`sections`] states.
fn list_sections<C: Backend>(
    crypto: &C,
    entries: &Vec<Option<Vec<u8>>>,
    dopts: &DisplayOptions,
    show: bool,
    fail_fast: bool,
) -> (r: Result<String, Error>)
    ensures
        match sections(*crypto, entry_models(entries@), dopts@, show, fail_fast) {
            Ok(t) => r matches Ok(s) && s@ == t,
            Err(f) => r matches Err(e) && failure_error(f, e),
        },
{
    let ghost es = entry_models(entries@);
    let ghost dm = dopts@;
    let mut out = String::new();
    let mut i: usize = 0;
    assert(es.skip(0) == es);
    proof {
        if let Ok(u) = sections(*crypto, es, dm, show, fail_fast) {
            assert(out@ + u =~= u);
        }
    }
    while i < entries.len()
        invariant
            i <= entries.len(),
            es == entry_models(entries@),
            dm == dopts@,
            sections(*crypto, es, dm, show, fail_fast) == combine(
                out@,
                sections(*crypto, es.skip(i as int), dm, show, fail_fast),
            ),
        decreases entries.len() - i,
    {
        let ghost rest = es.skip(i as int);
        let ghost tail = sections(*crypto, es.skip(i + 1), dm, show, fail_fast);
        assert(rest[0] == match entries@[i as int] {
            Some(b) => Some(b@),
            None => None,
        });
        assert(rest.drop_first() == es.skip(i + 1));
        let ghost before = out@;
        match entry_section(crypto, &entries[i], dopts, show) {
            Ok(shown) => {
                out.append("---");
                push_char(&mut out, '\n');
                out.append(shown.as_str());
                proof {
                    let piece = "---"@ + seq!['\n'] + shown@;
                    assert(sections(*crypto, rest, dm, show, fail_fast) == combine(piece, tail));
                    lemma_combine(before, piece, tail);
                    assert(before + piece =~= out@);
                }
            },
            Err(e) => {
                if fail_fast {
                    return Err(error_of(e));
                }
                out.append("---");
                push_char(&mut out, '\n');
                out.append("error: ");
                let message = failure_string(&e);
                out.append(message.as_str());
                push_char(&mut out, '\n');
                proof {
                    let piece = "---"@ + seq!['\n'] + ("error: "@ + message@ + seq!['\n']);
                    assert(sections(*crypto, rest, dm, show, fail_fast) == combine(piece, tail));
                    lemma_combine(before, piece, tail);
                    assert(before + piece =~= out@);
                }
            },
        }
        i = i + 1;
    }
    assert(es.skip(i as int) == Seq::<Option<Seq<u8>>>::empty());
    assert(out@ + Seq::<char>::empty() =~= out@);
    Ok(out)
}

/// Lists entries from their stored bytes (`None` for an entry whose bytes
/// could not be read): unless quiet, a line counting them, then a section
/// for each, as [`sections`] states.
pub fn list<C: Backend>(
    opts: &List,
    secret_visibility: SecretVisibility,
    crypto: &C,
    entries: &Vec<Option<Vec<u8>>>,
) -> (r: Result<String, Error>)
    ensures
        match sections(
            *crypto,
            entry_models(entries@),
            list_display(opts.all, opts.no_default, texts(opts.display@)),
            secret_visibility == SecretVisibility::Show,
            opts.fail_fast,
        ) {
            Ok(t) => r matches Ok(s) && s@ == (if opts.quiet {
                seq![]
            } else {
                count_line(entries@.len())
            }) + t,
            Err(f) => r matches Err(e) && failure_error(f, e),
        },
{
    let dopts = list_options(opts);
    let show = match secret_visibility {
        SecretVisibility::Show => true,
        SecretVisibility::Hide => false,
    };
    let body = list_sections(crypto, entries, &dopts, show, opts.fail_fast)?;
    let mut out = String::new();
    if !opts.quiet {
        out.append("Found ");
        let count = decimal_string(entries.len());
        out.append(count.as_str());
        out.append(" ");
        if entries.len() == 1 {
            out.append("Entry");
        } else {
            out.append("Entries");
        }
        push_char(&mut out, '\n');
    }
    let ghost head = out@;
    out.append(body.as_str());
    assert(out@ =~= head + body@);
    Ok(out)
}

/// A transparent entry lists as the record it was created with: the bytes
/// stored for recipients whose texts hold no line break and for a record
/// whose fields read back display as that record.
pub proof fn lemma_created_entry_lists(
    recipients: Seq<Seq<char>>,
    record: Seq<FieldModel>,
    opts: DisplayModel,
    reveal: bool,
)
    requires
        single_lines(recipients),
        forall|i: int| 0 <= i < record.len() ==> field_round_trips(#[trigger] record[i]),
    ensures
        entry_text(Transparent {}, Some(stored_bytes(recipients, record)), opts, reveal) == Ok::<
            Seq<char>,
            FailureModel,
        >(display_text(record, opts, reveal)),
{
    reveal(entry_text);
    lemma_header_round_trip(recipients, encode_utf8(encode(record)));
    lemma_round_trip(record);
}

} // verus!
