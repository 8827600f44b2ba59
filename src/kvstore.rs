//! The record format stored inside every entry: an ordered list of key/value
//! fields, one per line, written `key[!]=value`.

use vstd::prelude::*;
use vstd::std_specs::iter::IteratorSpec;
use vstd::utf8::{decode_utf8, encode_utf8, valid_utf8};

use crate::text::{chars_of, push_char, str_eq, string_of, string_of_range};

verus! {

/// Separates a field's key from its value.
pub const DELIMETER: char = '=';

/// Appended to a key when its value is sensitive.
pub const SENSITIVITY: char = '!';

/// Model of a [`Key`]: the well-known names, or the text of any other key.
pub enum KeyModel {
    Name,
    Username,
    Email,
    Password,
    Url,
    Notes,
    Other(Seq<char>),
}

/// Model of a [`Value`]: its sensitivity and its text.
pub enum ValueModel {
    Sensitive(Seq<char>),
    Insensitive(Seq<char>),
}

/// Model of one field of a record.
pub type FieldModel = (KeyModel, ValueModel);

/// The key of a [`KeyValuePair`].
///
/// Some keys are handled as special cases by client applications. These keys
/// are enumerated; every other key is held by `Other`.
pub enum Key {
    /// A name for the entry.
    Name,
    /// A username for an account, usually a website.
    Username,
    /// The email associated with the account.
    Email,
    /// The password or passphrase used to sign into the account.
    Password,
    /// A URL of the service.
    Url,
    /// Free-form notes.
    Notes,
    /// Any key that is not one of the above.
    Other(String),
}

impl View for Key {
    type V = KeyModel;

    open spec fn view(&self) -> KeyModel {
        match self {
            Key::Name => KeyModel::Name,
            Key::Username => KeyModel::Username,
            Key::Email => KeyModel::Email,
            Key::Password => KeyModel::Password,
            Key::Url => KeyModel::Url,
            Key::Notes => KeyModel::Notes,
            Key::Other(s) => KeyModel::Other(s@),
        }
    }
}

/// The text a key is written as.
pub open spec fn key_text(k: KeyModel) -> Seq<char> {
    match k {
        KeyModel::Name => "name"@,
        KeyModel::Username => "username"@,
        KeyModel::Email => "email"@,
        KeyModel::Password => "password"@,
        KeyModel::Url => "url"@,
        KeyModel::Notes => "notes"@,
        KeyModel::Other(t) => t,
    }
}

/// The key that a text names: a well-known key for its exact name, `Other`
/// for anything else.
pub open spec fn key_of_text(t: Seq<char>) -> KeyModel {
    if t == "name"@ {
        KeyModel::Name
    } else if t == "username"@ {
        KeyModel::Username
    } else if t == "email"@ {
        KeyModel::Email
    } else if t == "password"@ {
        KeyModel::Password
    } else if t == "url"@ {
        KeyModel::Url
    } else if t == "notes"@ {
        KeyModel::Notes
    } else {
        KeyModel::Other(t)
    }
}

impl Key {
    /// Parses a key from its text. Never fails: unknown text is `Other`.
    pub fn from_str(s: &str) -> (r: Key)
        ensures
            r@ == key_of_text(s@),
    {
        if str_eq(s, "name") {
            Key::Name
        } else if str_eq(s, "username") {
            Key::Username
        } else if str_eq(s, "email") {
            Key::Email
        } else if str_eq(s, "password") {
            Key::Password
        } else if str_eq(s, "url") {
            Key::Url
        } else if str_eq(s, "notes") {
            Key::Notes
        } else {
            Key::Other(String::from_str(s))
        }
    }

    /// The text this key is written as.
    pub fn to_string(&self) -> (r: String)
        ensures
            r@ == key_text(self@),
    {
        match self {
            Key::Name => String::from_str("name"),
            Key::Username => String::from_str("username"),
            Key::Email => String::from_str("email"),
            Key::Password => String::from_str("password"),
            Key::Url => String::from_str("url"),
            Key::Notes => String::from_str("notes"),
            Key::Other(v) => v.clone(),
        }
    }
}

impl Clone for Key {
    fn clone(&self) -> (r: Key)
        ensures
            r@ == self@,
    {
        match self {
            Key::Name => Key::Name,
            Key::Username => Key::Username,
            Key::Email => Key::Email,
            Key::Password => Key::Password,
            Key::Url => Key::Url,
            Key::Notes => Key::Notes,
            Key::Other(v) => Key::Other(v.clone()),
        }
    }
}

impl PartialEq for Key {
    fn eq(&self, o: &Key) -> (r: bool) {
        match (self, o) {
            (Key::Name, Key::Name) => true,
            (Key::Username, Key::Username) => true,
            (Key::Email, Key::Email) => true,
            (Key::Password, Key::Password) => true,
            (Key::Url, Key::Url) => true,
            (Key::Notes, Key::Notes) => true,
            (Key::Other(a), Key::Other(b)) => str_eq(a.as_str(), b.as_str()),
            _ => false,
        }
    }
}

impl vstd::std_specs::cmp::PartialEqSpecImpl for Key {
    open spec fn obeys_eq_spec() -> bool {
        true
    }

    open spec fn eq_spec(&self, o: &Key) -> bool {
        self@ == o@
    }
}

impl Eq for Key {

}

/// Contains the data associated with a [`Key`] in a [`KeyValuePair`].
///
/// A sensitive value is secret material that client applications should not
/// show without the user asking for it. Sensitivity is a display attribute
/// only: every field of an entry is protected by the same encryption.
pub enum Value {
    Sensitive(String),
    Insensitive(String),
}

impl View for Value {
    type V = ValueModel;

    open spec fn view(&self) -> ValueModel {
        match self {
            Value::Sensitive(s) => ValueModel::Sensitive(s@),
            Value::Insensitive(s) => ValueModel::Insensitive(s@),
        }
    }
}

/// The text of a value, whatever its sensitivity.
pub open spec fn value_text(v: ValueModel) -> Seq<char> {
    match v {
        ValueModel::Sensitive(t) => t,
        ValueModel::Insensitive(t) => t,
    }
}

/// The sensitivity marker written after the key of a field.
pub open spec fn marker(v: ValueModel) -> Seq<char> {
    match v {
        ValueModel::Sensitive(_) => seq![SENSITIVITY],
        ValueModel::Insensitive(_) => seq![],
    }
}

impl Value {
    /// The text of this value.
    pub fn text(&self) -> (r: &String)
        ensures
            r@ == value_text(self@),
    {
        match self {
            Value::Sensitive(s) => s,
            Value::Insensitive(s) => s,
        }
    }
}

/// One field of a record.
pub struct KeyValuePair {
    pub key: Key,
    pub value: Value,
}

impl View for KeyValuePair {
    type V = FieldModel;

    open spec fn view(&self) -> FieldModel {
        (self.key@, self.value@)
    }
}

/// The line a field is written as, without its line break.
pub open spec fn line_text(f: FieldModel) -> Seq<char> {
    key_text(f.0) + marker(f.1) + seq![DELIMETER] + value_text(f.1)
}

/// `i` is the position of the first `c` in `s`.
pub open spec fn is_first(s: Seq<char>, c: char, i: int) -> bool {
    &&& 0 <= i < s.len()
    &&& s[i] == c
    &&& forall|k: int| 0 <= k < i ==> s[k] != c
}

/// The field a line holds: the line splits at its first delimiter; a key
/// span that ends in the sensitivity marker loses it and marks the value
/// sensitive. `None` when the line has no delimiter.
pub open spec fn parse_line(l: Seq<char>) -> Option<FieldModel> {
    if exists|i: int| is_first(l, DELIMETER, i) {
        let i = choose|i: int| is_first(l, DELIMETER, i);
        let span = l.take(i);
        let v = l.skip(i + 1);
        if span.len() > 0 && span.last() == SENSITIVITY {
            Some((key_of_text(span.drop_last()), ValueModel::Sensitive(v)))
        } else {
            Some((key_of_text(span), ValueModel::Insensitive(v)))
        }
    } else {
        None
    }
}

/// Failure to read a record.
pub enum Error {
    /// The record's bytes are not UTF-8 text.
    InvalidUtf8,
    /// A line has no delimiter; it holds the line.
    MissingDelimeter(String),
}

/// Model of an [`Error`].
pub enum ErrorModel {
    InvalidUtf8,
    MissingDelimeter(Seq<char>),
}

impl View for Error {
    type V = ErrorModel;

    open spec fn view(&self) -> ErrorModel {
        match self {
            Error::InvalidUtf8 => ErrorModel::InvalidUtf8,
            Error::MissingDelimeter(s) => ErrorModel::MissingDelimeter(s@),
        }
    }
}

/// The message describing an error.
pub open spec fn error_text(e: ErrorModel) -> Seq<char> {
    match e {
        ErrorModel::InvalidUtf8 => "entry is not valid UTF-8 text"@,
        ErrorModel::MissingDelimeter(l) => "missing delimiter in line: "@ + l,
    }
}

impl Error {
    /// A message describing this error.
    pub fn to_string(&self) -> (r: String)
        ensures
            r@ == error_text(self@),
    {
        match self {
            Error::InvalidUtf8 => String::from_str("entry is not valid UTF-8 text"),
            Error::MissingDelimeter(line) => {
                let mut m = String::from_str("missing delimiter in line: ");
                m.append(line.as_str());
                m
            },
        }
    }
}

/// Parses one line held as characters.
fn parse_field(line: &Vec<char>) -> (r: Result<KeyValuePair, Error>)
    ensures
        match parse_line(line@) {
            Some(f) => r matches Ok(p) && p@ == f,
            None => r matches Err(e) && e@ == ErrorModel::MissingDelimeter(line@),
        },
{
    let mut i: usize = 0;
    while i < line.len() && line[i] != DELIMETER
        invariant
            i <= line.len(),
            forall|k: int| 0 <= k < i ==> line@[k] != DELIMETER,
        decreases line.len() - i,
    {
        i = i + 1;
    }
    if i == line.len() {
        assert(!exists|j: int| is_first(line@, DELIMETER, j));
        return Err(Error::MissingDelimeter(string_of(line)));
    }
    assert(is_first(line@, DELIMETER, i as int));
    let ghost j = choose|j: int| is_first(line@, DELIMETER, j);
    assert(j == i);
    let value_chars = string_of_range(line, i + 1, line.len());
    if i > 0 && line[i - 1] == SENSITIVITY {
        let key_chars = string_of_range(line, 0, i - 1);
        assert(line@.take(i as int).drop_last() == line@.subrange(0, i - 1));
        let key = Key::from_str(key_chars.as_str());
        Ok(KeyValuePair { key, value: Value::Sensitive(value_chars) })
    } else {
        let key_chars = string_of_range(line, 0, i);
        let key = Key::from_str(key_chars.as_str());
        Ok(KeyValuePair { key, value: Value::Insensitive(value_chars) })
    }
}

impl KeyValuePair {
    /// A field with the given key and value.
    pub fn new(key: Key, value: Value) -> (r: KeyValuePair)
        ensures
            r@ == (key@, value@),
    {
        KeyValuePair { key, value }
    }

    /// Parses a field from its line.
    pub fn from_str(s: &str) -> (r: Result<KeyValuePair, Error>)
        ensures
            match parse_line(s@) {
                Some(f) => r matches Ok(p) && p@ == f,
                None => r matches Err(e) && e@ == ErrorModel::MissingDelimeter(s@),
            },
    {
        parse_field(&chars_of(s))
    }

    /// The line this field is written as, without its line break.
    pub fn to_string(&self) -> (r: String)
        ensures
            r@ == line_text(self@),
    {
        let mut line = self.key.to_string();
        if let Value::Sensitive(_) = self.value {
            push_char(&mut line, SENSITIVITY);
        }
        push_char(&mut line, DELIMETER);
        line.append(self.value.text().as_str());
        line
    }
}

/// The text of a record: each field's line followed by a line break.
pub open spec fn encode(r: Seq<FieldModel>) -> Seq<char>
    decreases r.len(),
{
    if r.len() == 0 {
        seq![]
    } else {
        line_text(r[0]) + seq!['\n'] + encode(r.drop_first())
    }
}

/// A line read up to its break loses one carriage return before the break.
pub open spec fn strip_cr(l: Seq<char>) -> Seq<char> {
    if l.len() > 0 && l.last() == '\r' {
        l.drop_last()
    } else {
        l
    }
}

/// The lines of `rest`, the first one continuing `cur`. A last line without
/// a break counts when it is not empty.
pub open spec fn lines_from(cur: Seq<char>, rest: Seq<char>) -> Seq<Seq<char>>
    decreases rest.len(),
{
    if rest.len() == 0 {
        if cur.len() == 0 {
            seq![]
        } else {
            seq![cur]
        }
    } else if rest[0] == '\n' {
        seq![strip_cr(cur)] + lines_from(seq![], rest.drop_first())
    } else {
        lines_from(cur.push(rest[0]), rest.drop_first())
    }
}

/// The lines of a text.
pub open spec fn split_lines(t: Seq<char>) -> Seq<Seq<char>> {
    lines_from(seq![], t)
}

/// The fields of the given lines, in order, or the first line without a
/// delimiter.
pub open spec fn parse_lines(ls: Seq<Seq<char>>) -> Result<Seq<FieldModel>, Seq<char>>
    decreases ls.len(),
{
    if ls.len() == 0 {
        Ok(seq![])
    } else {
        match parse_line(ls[0]) {
            None => Err(ls[0]),
            Some(f) => match parse_lines(ls.drop_first()) {
                Ok(rest) => Ok(seq![f] + rest),
                Err(e) => Err(e),
            },
        }
    }
}

/// The record a text holds, or the first line without a delimiter.
pub open spec fn decode(t: Seq<char>) -> Result<Seq<FieldModel>, Seq<char>> {
    parse_lines(split_lines(t))
}

/// Relies on `String::from_utf8`: the text of valid UTF-8 bytes, `None`
/// for any other bytes.
#[verifier::external_body]
fn utf8_text(b: &[u8]) -> (r: Option<String>)
    ensures
        r is Some <==> valid_utf8(b@),
        r matches Some(s) ==> s@ == decode_utf8(b@),
{
    String::from_utf8(b.to_vec()).ok()
}

/// The lines of `t`, as [`split_lines`] gives them.
fn lines_of(t: &Vec<char>) -> (r: Vec<Vec<char>>)
    ensures
        r@.map_values(|l: Vec<char>| l@) == split_lines(t@),
{
    let mut lines: Vec<Vec<char>> = Vec::new();
    let mut cur: Vec<char> = Vec::new();
    let mut i: usize = 0;
    assert(t@.skip(0) == t@);
    assert(lines@.map_values(|l: Vec<char>| l@) + split_lines(t@) =~= split_lines(t@));
    while i < t.len()
        invariant
            i <= t.len(),
            lines@.map_values(|l: Vec<char>| l@) + lines_from(cur@, t@.skip(i as int)) == split_lines(t@),
        decreases t.len() - i,
    {
        let c = t[i];
        assert(t@.skip(i as int)[0] == c);
        assert(t@.skip(i as int).drop_first() == t@.skip(i + 1));
        if c == '\n' {
            let ghost raw = cur@;
            if cur.len() > 0 && cur[cur.len() - 1] == '\r' {
                cur.pop();
            }
            assert(cur@ == strip_cr(raw));
            let ghost before = lines@.map_values(|l: Vec<char>| l@);
            lines.push(cur);
            assert(lines@.map_values(|l: Vec<char>| l@) =~= before.push(strip_cr(raw)));
            cur = Vec::new();
            assert(before.push(strip_cr(raw)) + lines_from(seq![], t@.skip(i + 1)) =~= before + (
            seq![strip_cr(raw)] + lines_from(seq![], t@.skip(i + 1))));
        } else {
            cur.push(c);
        }
        i = i + 1;
    }
    assert(t@.skip(i as int).len() == 0);
    if cur.len() > 0 {
        let ghost before = lines@.map_values(|l: Vec<char>| l@);
        lines.push(cur);
        assert(lines@.map_values(|l: Vec<char>| l@) == before + seq![lines@.map_values(|l: Vec<char>| l@)[before.len() as int]]);
    } else {
        assert(lines@.map_values(|l: Vec<char>| l@) == lines@.map_values(|l: Vec<char>| l@) + Seq::<Seq<char>>::empty());
    }
    lines
}

/// The characters `*`, `n` times.
pub open spec fn stars(n: nat) -> Seq<char> {
    Seq::new(n, |i: int| '*')
}

/// The length of a text as `str::len` reports it: its UTF-8 bytes.
pub open spec fn str_len(t: Seq<char>) -> usize {
    encode_utf8(t).len() as usize
}

/// How a value is shown: sensitive values are replaced by as many `*` as
/// their length, at most 16, unless secrets are revealed.
pub open spec fn shown_value(v: ValueModel, reveal: bool) -> Seq<char> {
    match v {
        ValueModel::Sensitive(t) => if reveal {
            t
        } else {
            stars(if str_len(t) < 16 {
                str_len(t) as nat
            } else {
                16
            })
        },
        ValueModel::Insensitive(t) => t,
    }
}

/// Model of [`DisplayOptions`]: whether every key is shown, and the keys
/// shown otherwise.
pub type DisplayModel = (bool, Seq<KeyModel>);

/// Whether a key is shown under the given options.
pub open spec fn selected(opts: DisplayModel, k: KeyModel) -> bool {
    opts.0 || opts.1.contains(k)
}

/// The text a record is displayed as: `key: value` for each selected field.
pub open spec fn display_text(r: Seq<FieldModel>, opts: DisplayModel, reveal: bool) -> Seq<char>
    decreases r.len(),
{
    if r.len() == 0 {
        seq![]
    } else {
        (if selected(opts, r[0].0) {
            key_text(r[0].0) + ": "@ + shown_value(r[0].1, reveal) + seq!['\n']
        } else {
            seq![]
        }) + display_text(r.drop_first(), opts, reveal)
    }
}

/// Which fields of a record are displayed.
pub struct DisplayOptions {
    /// Whether to show all keys.
    ///
    /// This does *not* affect the visibility of secret material: sensitive
    /// values stay redacted unless secrets are revealed.
    pub show_all: bool,
    /// The keys shown when not all are.
    pub enabled_keys: Vec<Key>,
}

impl View for DisplayOptions {
    type V = DisplayModel;

    open spec fn view(&self) -> DisplayModel {
        (self.show_all, self.enabled_keys@.map_values(|k: Key| k@))
    }
}

impl DisplayOptions {
    /// Whether `key` is shown under these options.
    pub fn shows(&self, key: &Key) -> (r: bool)
        ensures
            r == selected(self@, key@),
    {
        if self.show_all {
            return true;
        }
        let mut i: usize = 0;
        while i < self.enabled_keys.len()
            invariant
                i <= self.enabled_keys.len(),
                !self.show_all,
                forall|j: int| 0 <= j < i ==> self.enabled_keys@[j]@ != key@,
            decreases self.enabled_keys.len() - i,
        {
            if self.enabled_keys[i] == *key {
                assert(self@.1[i as int] == key@);
                return true;
            }
            i = i + 1;
        }
        assert(!self@.1.contains(key@)) by {
            if self@.1.contains(key@) {
                let j = choose|j: int| 0 <= j < self@.1.len() && self@.1[j] == key@;
                assert(self.enabled_keys@[j]@ == key@);
            }
        }
        false
    }
}

/// The characters `*`, `n` times, as a string.
fn star_string(n: usize) -> (r: String)
    ensures
        r@ == stars(n as nat),
{
    let mut s = String::new();
    let mut i: usize = 0;
    while i < n
        invariant
            i <= n,
            s@ == stars(i as nat),
        decreases n - i,
    {
        push_char(&mut s, '*');
        assert(stars((i + 1) as nat) == stars(i as nat).push('*'));
        i = i + 1;
    }
    s
}

/// An ordered key/value store for arbitrary keys and values.
pub struct KvStore {
    key_value_pairs: Vec<KeyValuePair>,
}

impl View for KvStore {
    type V = Seq<FieldModel>;

    closed spec fn view(&self) -> Seq<FieldModel> {
        self.key_value_pairs@.map_values(|p: KeyValuePair| p@)
    }
}

impl KvStore {
    /// A record holding the given fields, in order.
    pub fn new(key_value_pairs: Vec<KeyValuePair>) -> (r: KvStore)
        ensures
            r@ == key_value_pairs@.map_values(|p: KeyValuePair| p@),
    {
        KvStore { key_value_pairs }
    }

    /// The fields of this record, in order.
    pub fn iter(&self) -> (r: std::slice::Iter<'_, KeyValuePair>)
        ensures
            r.remaining().len() == self@.len(),
            forall|i: int| 0 <= i < self@.len() ==> (#[trigger] r.remaining()[i])@ == self@[i],
    {
        broadcast use vstd::std_specs::slice::axiom_spec_slice_iter;

        self.key_value_pairs.iter()
    }

    /// The fields of this record, in order.
    pub fn into_pairs(self) -> (r: Vec<KeyValuePair>)
        ensures
            r@.map_values(|p: KeyValuePair| p@) == self@,
    {
        self.key_value_pairs
    }

    /// The text of this record, as [`encode`] gives it.
    pub fn to_text(&self) -> (r: String)
        ensures
            r@ == encode(self@),
    {
        let mut out = String::new();
        let mut i: usize = 0;
        assert(self@.skip(0) == self@);
        assert(out@ + encode(self@) =~= encode(self@));
        while i < self.key_value_pairs.len()
            invariant
                i <= self.key_value_pairs.len(),
                encode(self@) == out@ + encode(self@.skip(i as int)),
            decreases self.key_value_pairs.len() - i,
        {
            assert(self@.skip(i as int)[0] == self.key_value_pairs@[i as int]@);
            assert(self@.skip(i as int).drop_first() == self@.skip(i + 1));
            let line = self.key_value_pairs[i].to_string();
            out.append(line.as_str());
            push_char(&mut out, '\n');
            i = i + 1;
        }
        assert(self@.skip(i as int) == Seq::<FieldModel>::empty());
        out
    }

    /// The bytes this record is stored as: its text, in UTF-8.
    pub fn serialize(&self) -> (r: Vec<u8>)
        ensures
            r@ == encode_utf8(encode(self@)),
    {
        let text = self.to_text();
        text.as_str().as_bytes_vec()
    }

    /// Reads a record from its text.
    pub fn from_text(text: &str) -> (r: Result<KvStore, Error>)
        ensures
            match decode(text@) {
                Ok(m) => r matches Ok(st) && st@ == m,
                Err(l) => r matches Err(e) && e@ == ErrorModel::MissingDelimeter(l),
            },
    {
        let chars = chars_of(text);
        let lines = lines_of(&chars);
        let ghost ls = lines@.map_values(|l: Vec<char>| l@);
        let mut pairs: Vec<KeyValuePair> = Vec::new();
        let mut i: usize = 0;
        assert(ls.skip(0) == ls);
        proof {
            if let Ok(rest) = parse_lines(ls) {
                assert(pairs@.map_values(|p: KeyValuePair| p@) + rest =~= rest);
            }
        }
        while i < lines.len()
            invariant
                i <= lines.len(),
                ls == lines@.map_values(|l: Vec<char>| l@),
                ls == split_lines(text@),
                parse_lines(ls) == match parse_lines(ls.skip(i as int)) {
                    Ok(rest) => Ok(pairs@.map_values(|p: KeyValuePair| p@) + rest),
                    Err(e) => Err(e),
                },
            decreases lines.len() - i,
        {
            assert(ls.skip(i as int)[0] == lines[i as int]@);
            assert(ls.skip(i as int).drop_first() == ls.skip(i + 1));
            match parse_field(&lines[i]) {
                Ok(p) => {
                    let ghost before = pairs@.map_values(|p: KeyValuePair| p@);
                    pairs.push(p);
                    assert(pairs@.map_values(|p: KeyValuePair| p@) == before.push(p@));
                    proof {
                        if let Ok(rest) = parse_lines(ls.skip(i + 1)) {
                            assert(before + (seq![p@] + rest) =~= before.push(p@) + rest);
                        }
                    }
                },
                Err(e) => {
                    return Err(e);
                },
            }
            i = i + 1;
        }
        assert(ls.skip(i as int) == Seq::<Seq<char>>::empty());
        assert(pairs@.map_values(|p: KeyValuePair| p@) + Seq::<FieldModel>::empty()
            == pairs@.map_values(|p: KeyValuePair| p@));
        Ok(KvStore { key_value_pairs: pairs })
    }

    /// Reads a record from the bytes it is stored as.
    pub fn deserialize(bytes: &[u8]) -> (r: Result<KvStore, Error>)
        ensures
            !valid_utf8(bytes@) ==> (r matches Err(e) && e@ == ErrorModel::InvalidUtf8),
            valid_utf8(bytes@) ==> match decode(decode_utf8(bytes@)) {
                Ok(m) => r matches Ok(st) && st@ == m,
                Err(l) => r matches Err(e) && e@ == ErrorModel::MissingDelimeter(l),
            },
    {
        match utf8_text(bytes) {
            Some(text) => KvStore::from_text(text.as_str()),
            None => Err(Error::InvalidUtf8),
        }
    }

    /// The text this record is displayed as: for each field that the options
    /// select, `key: value` on a line, with sensitive values redacted unless
    /// `show_secrets` holds.
    pub fn display(&self, opts: &DisplayOptions, show_secrets: bool) -> (r: String)
        ensures
            r@ == display_text(self@, opts@, show_secrets),
    {
        let mut out = String::new();
        let mut i: usize = 0;
        assert(self@.skip(0) == self@);
        assert(out@ + display_text(self@, opts@, show_secrets) =~= display_text(
            self@,
            opts@,
            show_secrets,
        ));
        while i < self.key_value_pairs.len()
            invariant
                i <= self.key_value_pairs.len(),
                display_text(self@, opts@, show_secrets) == out@ + display_text(
                    self@.skip(i as int),
                    opts@,
                    show_secrets,
                ),
            decreases self.key_value_pairs.len() - i,
        {
            let pair = &self.key_value_pairs[i];
            assert(self@.skip(i as int)[0] == pair@);
            assert(self@.skip(i as int).drop_first() == self@.skip(i + 1));
            let value: String = match &pair.value {
                Value::Sensitive(v) => {
                    if show_secrets {
                        v.clone()
                    } else {
                        let len = v.as_str().len();
                        star_string(if len < 16 {
                            len
                        } else {
                            16
                        })
                    }
                },
                Value::Insensitive(v) => v.clone(),
            };
            assert(value@ == shown_value(pair@.1, show_secrets));
            if opts.shows(&pair.key) {
                let ghost before = out@;
                let key = pair.key.to_string();
                out.append(key.as_str());
                out.append(": ");
                out.append(value.as_str());
                push_char(&mut out, '\n');
                assert(out@ =~= before + (key_text(pair@.0) + ": "@ + shown_value(
                    pair@.1,
                    show_secrets,
                ) + seq!['\n']));
            }
            i = i + 1;
        }
        assert(self@.skip(i as int) == Seq::<FieldModel>::empty());
        out
    }
}

/// A field whose line reads back as the same field: an `Other` key's text
/// holds no delimiter or line break, is not a well-known name, and ends in
/// the sensitivity marker only when the value is sensitive; the value holds
/// no line break and does not end in a carriage return.
pub open spec fn field_round_trips(f: FieldModel) -> bool {
    let v = value_text(f.1);
    &&& f.0 matches KeyModel::Other(t) ==> {
        &&& !t.contains(DELIMETER)
        &&& !t.contains('\n')
        &&& (t.len() > 0 && t.last() == SENSITIVITY ==> f.1 is Sensitive)
        &&& key_of_text(t) is Other
    }
    &&& !v.contains('\n')
    &&& !(v.len() > 0 && v.last() == '\r')
}

proof fn lemma_key_text(k: KeyModel)
    requires
        k matches KeyModel::Other(t) ==> key_of_text(t) is Other,
    ensures
        key_of_text(key_text(k)) == k,
        !(k is Other) ==> {
            &&& !key_text(k).contains(DELIMETER)
            &&& !key_text(k).contains('\n')
            &&& !(key_text(k).len() > 0 && key_text(k).last() == SENSITIVITY)
        },
{
    reveal_strlit("name");
    reveal_strlit("username");
    reveal_strlit("email");
    reveal_strlit("password");
    reveal_strlit("url");
    reveal_strlit("notes");
}

proof fn lemma_parse_line_text(f: FieldModel)
    requires
        field_round_trips(f),
    ensures
        parse_line(line_text(f)) == Some(f),
{
    lemma_key_text(f.0);
    let t = key_text(f.0);
    let m = marker(f.1);
    let v = value_text(f.1);
    let l = line_text(f);
    let i = (t.len() + m.len()) as int;
    assert(l == t + m + seq![DELIMETER] + v);
    assert(l[i] == DELIMETER);
    assert forall|k: int| 0 <= k < i implies l[k] != DELIMETER by {
        if k < t.len() {
            assert(l[k] == t[k]);
            assert(!t.contains(DELIMETER));
        } else {
            assert(l[k] == m[k - t.len()]);
        }
    }
    assert(is_first(l, DELIMETER, i));
    let j = choose|j: int| is_first(l, DELIMETER, j);
    assert(j == i);
    assert(l.take(i) =~= t + m);
    assert(l.skip(i + 1) =~= v);
    match f.1 {
        ValueModel::Sensitive(_) => {
            assert((t + m).drop_last() =~= t);
        },
        ValueModel::Insensitive(_) => {
            assert(t + m =~= t);
        },
    }
}

proof fn lemma_lines_from_break(cur: Seq<char>, a: Seq<char>, b: Seq<char>)
    requires
        !a.contains('\n'),
    ensures
        lines_from(cur, a + seq!['\n'] + b) == seq![strip_cr(cur + a)] + lines_from(seq![], b),
    decreases a.len(),
{
    let rest = a + seq!['\n'] + b;
    if a.len() == 0 {
        assert(rest =~= seq!['\n'] + b);
        assert(rest.drop_first() =~= b);
        assert(cur + a =~= cur);
    } else {
        assert(rest[0] == a[0]);
        assert(rest.drop_first() =~= a.drop_first() + seq!['\n'] + b);
        assert(!a.drop_first().contains('\n')) by {
            if a.drop_first().contains('\n') {
                let k = choose|k: int| 0 <= k < a.drop_first().len() && a.drop_first()[k] == '\n';
                assert(a[k + 1] == '\n');
            }
        }
        lemma_lines_from_break(cur.push(a[0]), a.drop_first(), b);
        assert(cur.push(a[0]) + a.drop_first() =~= cur + a);
    }
}

proof fn lemma_split_encode(r: Seq<FieldModel>)
    requires
        forall|i: int| 0 <= i < r.len() ==> field_round_trips(#[trigger] r[i]),
    ensures
        split_lines(encode(r)) == r.map_values(|f: FieldModel| line_text(f)),
    decreases r.len(),
{
    if r.len() == 0 {
        assert(r.map_values(|f: FieldModel| line_text(f)) =~= Seq::<Seq<char>>::empty());
    } else {
        let f = r[0];
        assert(field_round_trips(f));
        lemma_key_text(f.0);
        let l = line_text(f);
        let t = key_text(f.0);
        let v = value_text(f.1);
        assert(l == t + marker(f.1) + seq![DELIMETER] + v);
        assert(!l.contains('\n')) by {
            if l.contains('\n') {
                let k = choose|k: int| 0 <= k < l.len() && l[k] == '\n';
                if k < t.len() {
                    assert(l[k] == t[k]);
                } else if k < t.len() + marker(f.1).len() + 1 {
                } else {
                    assert(l[k] == v[k - t.len() - marker(f.1).len() - 1]);
                }
            }
        }
        assert(strip_cr(l) == l) by {
            if v.len() > 0 {
                assert(l.last() == v.last());
            } else {
                assert(l.last() == DELIMETER);
            }
        }
        lemma_lines_from_break(seq![], l, encode(r.drop_first()));
        assert(seq![] + l =~= l);
        assert(encode(r) == l + seq!['\n'] + encode(r.drop_first()));
        lemma_split_encode(r.drop_first());
        assert(r.map_values(|f: FieldModel| line_text(f)) =~= seq![l] + r.drop_first().map_values(
            |f: FieldModel| line_text(f),
        ));
    }
}

proof fn lemma_parse_lines_of(r: Seq<FieldModel>)
    requires
        forall|i: int| 0 <= i < r.len() ==> field_round_trips(#[trigger] r[i]),
    ensures
        parse_lines(r.map_values(|f: FieldModel| line_text(f))) == Ok::<
            Seq<FieldModel>,
            Seq<char>,
        >(r),
    decreases r.len(),
{
    let ls = r.map_values(|f: FieldModel| line_text(f));
    if r.len() == 0 {
        assert(r =~= Seq::<FieldModel>::empty());
    } else {
        assert(field_round_trips(r[0]));
        lemma_parse_line_text(r[0]);
        assert(ls.drop_first() =~= r.drop_first().map_values(|f: FieldModel| line_text(f)));
        lemma_parse_lines_of(r.drop_first());
        assert(seq![r[0]] + r.drop_first() =~= r);
    }
}

/// Decoding the text of a record gives the record back, field for field and
/// in order, when every field's line reads back as that field.
pub proof fn lemma_round_trip(r: Seq<FieldModel>)
    requires
        forall|i: int| 0 <= i < r.len() ==> field_round_trips(#[trigger] r[i]),
    ensures
        decode(encode(r)) == Ok::<Seq<FieldModel>, Seq<char>>(r),
        valid_utf8(encode_utf8(encode(r))),
        decode_utf8(encode_utf8(encode(r))) == encode(r),
{
    lemma_split_encode(r);
    lemma_parse_lines_of(r);
    vstd::utf8::encode_utf8_valid_utf8(encode(r));
    vstd::utf8::encode_utf8_decode_utf8(encode(r));
}

/// A sensitive value that secrets are not revealed for is shown as `*`
/// only, as many as its length but at most 16; a selected field
/// holding it displays as its key, `: ` and those stars.
pub proof fn lemma_redaction(k: KeyModel, t: Seq<char>, opts: DisplayModel)
    requires
        selected(opts, k),
    ensures
        shown_value(ValueModel::Sensitive(t), false).len() == if str_len(t) < 16 {
            str_len(t) as nat
        } else {
            16
        },
        forall|i: int|
            0 <= i < shown_value(ValueModel::Sensitive(t), false).len() ==> #[trigger] shown_value(
                ValueModel::Sensitive(t),
                false,
            )[i] == '*',
        display_text(seq![(k, ValueModel::Sensitive(t))], opts, false) == key_text(k) + ": "@
            + shown_value(ValueModel::Sensitive(t), false) + seq!['\n'],
{
    let r = seq![(k, ValueModel::Sensitive(t))];
    assert(r.drop_first() =~= Seq::<FieldModel>::empty());
    assert(r[0] == (k, ValueModel::Sensitive(t)));
    assert(display_text(r.drop_first(), opts, false) == Seq::<char>::empty());
    assert(display_text(r, opts, false) =~= key_text(k) + ": "@ + shown_value(
        ValueModel::Sensitive(t),
        false,
    ) + seq!['\n']);
}

} // verus!
