//! A backend that performs no cryptography: it frames the plaintext behind a
//! header naming the recipients. For tests and demonstrations.

use vstd::prelude::*;
use vstd::utf8::{encode_utf8, is_ascii_chars, is_ascii_chars_encode_utf8};

use crate::crypto::{self, recipient_models};
use crate::text::{lemma_encode_concat, lemma_encode_no_break, push_char};

verus! {

/// The transparent backend.
pub struct Transparent {}

/// A recipient of the transparent backend: any text.
pub struct Recipient(String);

impl View for Recipient {
    type V = Seq<char>;

    closed spec fn view(&self) -> Seq<char> {
        self.0@
    }
}

impl Clone for Recipient {
    fn clone(&self) -> (r: Recipient)
        ensures
            r@ == self@,
    {
        Recipient(self.0.clone())
    }
}

impl From<String> for Recipient {
    fn from(s: String) -> (r: Recipient)
        ensures
            r@ == s@,
    {
        Recipient(s)
    }
}

impl vstd::std_specs::convert::FromSpecImpl<String> for Recipient {
    open spec fn obeys_from_spec() -> bool {
        true
    }

    closed spec fn from_spec(v: String) -> Recipient {
        Recipient(v)
    }
}

impl crypto::Recipient for Recipient {
    open spec fn parsed(text: Seq<char>) -> Option<Seq<char>> {
        Some(text)
    }

    fn from_text(text: String) -> (r: Option<Recipient>) {
        Some(Recipient(text))
    }
}

/// The header written before the plaintext: a `-> ` line for each
/// recipient, then the separator line `---`.
pub open spec fn header(rs: Seq<Seq<char>>) -> Seq<char>
    decreases rs.len(),
{
    if rs.len() == 0 {
        "---"@ + seq!['\n']
    } else {
        "-> "@ + rs[0] + seq!['\n'] + header(rs.drop_first())
    }
}

/// A sink whose every byte has been framed by the backend.
pub struct Encrypted {
    output: Vec<u8>,
}

impl View for Encrypted {
    type V = Seq<u8>;

    closed spec fn view(&self) -> Seq<u8> {
        self.output@
    }
}

impl Encrypted {
    /// Writes `buf` through the sink.
    pub fn write(&mut self, buf: &[u8]) -> (n: usize)
        ensures
            final(self)@ == old(self)@ + buf@,
            n == buf@.len(),
    {
        let mut i: usize = 0;
        while i < buf.len()
            invariant
                i <= buf.len(),
                self@ == old(self)@ + buf@.take(i as int),
            decreases buf.len() - i,
        {
            self.output.push(buf[i]);
            assert(buf@.take(i + 1) == buf@.take(i as int).push(buf@[i as int]));
            i = i + 1;
        }
        assert(buf@.take(i as int) == buf@);
        i
    }

    /// Flushes the sink; nothing is held back.
    pub fn flush(&mut self)
        ensures
            final(self)@ == old(self)@,
    {
    }

    /// Closes the sink and hands back everything written to it.
    pub fn finish(self) -> (r: Vec<u8>)
        ensures
            r@ == self@,
    {
        self.output
    }
}

/// `i` is the position of the first line break in `c`.
pub open spec fn is_first_break(c: Seq<u8>, i: int) -> bool {
    &&& 0 <= i < c.len()
    &&& c[i] == 10
    &&& forall|k: int| 0 <= k < i ==> c[k] != 10
}

/// The length of the first line of `c`, its line break included.
pub open spec fn first_line_len(c: Seq<u8>) -> int {
    if exists|i: int| is_first_break(c, i) {
        (choose|i: int| is_first_break(c, i)) + 1
    } else {
        c.len() as int
    }
}

/// `c` starts with the bytes of `-> `.
pub open spec fn has_arrow(c: Seq<u8>) -> bool {
    c.len() >= 3 && c[0] == 45 && c[1] == 62 && c[2] == 32
}

/// What a reader of `c` sees after the header: lines starting with `-> `
/// are consumed, and so is the first line that does not.
pub open spec fn body_of(c: Seq<u8>) -> Seq<u8>
    decreases c.len(),
{
    if c.len() == 0 {
        c
    } else if has_arrow(c) {
        body_of(c.skip(first_line_len(c)))
    } else {
        c.skip(first_line_len(c))
    }
}

/// The recipient texts of the header of `c`: each `-> ` line without its
/// arrow and line break.
pub open spec fn header_recipients(c: Seq<u8>) -> Seq<Seq<u8>>
    decreases c.len(),
{
    if c.len() > 0 && has_arrow(c) {
        let n = first_line_len(c);
        let end = if n > 0 && c[n - 1] == 10 {
            n - 1
        } else {
            n
        };
        seq![c.subrange(3, end)] + header_recipients(c.skip(n))
    } else {
        seq![]
    }
}

/// A source of the plaintext behind a header.
pub struct Decrypted {
    recipients: Vec<Vec<u8>>,
    body: Vec<u8>,
}

impl View for Decrypted {
    type V = (Seq<Seq<u8>>, Seq<u8>);

    closed spec fn view(&self) -> (Seq<Seq<u8>>, Seq<u8>) {
        (self.recipients@.map_values(|v: Vec<u8>| v@), self.body@)
    }
}

impl Decrypted {
    /// The recipient texts that the header named.
    pub fn recipients(&self) -> (r: &Vec<Vec<u8>>)
        ensures
            r@.map_values(|v: Vec<u8>| v@) == self@.0,
    {
        &self.recipients
    }

    /// The plaintext.
    pub fn into_body(self) -> (r: Vec<u8>)
        ensures
            r@ == self@.1,
    {
        self.body
    }
}

/// A copy of `c[from..to]`.
fn copy_range(c: &[u8], from: usize, to: usize) -> (r: Vec<u8>)
    requires
        from <= to <= c@.len(),
    ensures
        r@ == c@.subrange(from as int, to as int),
{
    let mut out: Vec<u8> = Vec::new();
    let mut i: usize = from;
    while i < to
        invariant
            from <= i <= to <= c@.len(),
            out@ == c@.subrange(from as int, i as int),
        decreases to - i,
    {
        out.push(c[i]);
        assert(c@.subrange(from as int, i + 1) == c@.subrange(from as int, i as int).push(
            c@[i as int],
        ));
        i = i + 1;
    }
    out
}

impl Transparent {
    /// Starts a sink over `output`: writes the header for `recipients`, in
    /// UTF-8, after what `output` holds; later writes pass through unchanged.
    pub fn encrypt_output(&self, output: Vec<u8>, recipients: Vec<Recipient>) -> (r: Encrypted)
        ensures
            r@ == output@ + encode_utf8(header(recipients@.map_values(|x: Recipient| x@))),
    {
        let ghost rs = recipients@.map_values(|x: Recipient| x@);
        let mut text = String::new();
        let mut i: usize = 0;
        assert(rs.skip(0) == rs);
        assert(text@ + header(rs) =~= header(rs));
        while i < recipients.len()
            invariant
                i <= recipients.len(),
                rs == recipients@.map_values(|x: Recipient| x@),
                header(rs) == text@ + header(rs.skip(i as int)),
            decreases recipients.len() - i,
        {
            assert(rs.skip(i as int)[0] == recipients@[i as int]@);
            assert(rs.skip(i as int).drop_first() == rs.skip(i + 1));
            let ghost before = text@;
            text.append("-> ");
            text.append(recipients[i].0.as_str());
            push_char(&mut text, '\n');
            assert(text@ =~= before + ("-> "@ + recipients@[i as int]@ + seq!['\n']));
            i = i + 1;
        }
        let ghost before = text@;
        text.append("---");
        push_char(&mut text, '\n');
        assert(rs.skip(i as int) == Seq::<Seq<char>>::empty());
        assert(text@ =~= header(rs));
        let mut bytes = text.as_str().as_bytes_vec();
        let mut out = output;
        out.append(&mut bytes);
        Encrypted { output: out }
    }

    /// Reads past the header of `ciphertext`: consumes every leading line
    /// that starts with `-> `, and the first line that does not, and gives
    /// the rest unchanged. A header without its separator line thus loses
    /// the first line of the body.
    pub fn decrypt_input(&self, ciphertext: &[u8]) -> (r: Decrypted)
        ensures
            r@.1 == body_of(ciphertext@),
            r@.0 == header_recipients(ciphertext@),
    {
        let ghost c = ciphertext@;
        let len = ciphertext.len();
        let mut recipients: Vec<Vec<u8>> = Vec::new();
        let mut pos: usize = 0;
        let mut done = false;
        assert(c.skip(0) == c);
        assert(recipients@.map_values(|v: Vec<u8>| v@) + header_recipients(c)
            =~= header_recipients(c));
        while !done
            invariant
                c == ciphertext@,
                len == c.len(),
                pos <= len,
                !done ==> body_of(c) == body_of(c.skip(pos as int)),
                !done ==> header_recipients(c) == recipients@.map_values(|v: Vec<u8>| v@)
                    + header_recipients(c.skip(pos as int)),
                done ==> body_of(c) == c.skip(pos as int),
                done ==> header_recipients(c) == recipients@.map_values(|v: Vec<u8>| v@),
            decreases len - pos, if done { 0int } else { 1int },
        {
            let ghost rest = c.skip(pos as int);
            if pos == len {
                assert(rest.len() == 0);
                done = true;
            } else {
                let mut j: usize = pos;
                while j < len && ciphertext[j] != 10
                    invariant
                        pos <= j <= len,
                        len == ciphertext@.len(),
                        forall|k: int| pos <= k < j ==> ciphertext@[k] != 10,
                    decreases len - j,
                {
                    j = j + 1;
                }
                let end = if j < len {
                    j + 1
                } else {
                    j
                };
                proof {
                    if j < len {
                        assert(is_first_break(rest, j - pos));
                        let q = choose|q: int| is_first_break(rest, q);
                        assert(q == j - pos);
                    } else {
                        assert forall|q: int| !is_first_break(rest, q) by {
                            if is_first_break(rest, q) {
                                assert(ciphertext@[pos + q] == 10);
                            }
                        }
                    }
                    assert(first_line_len(rest) == end - pos);
                    assert(rest.skip(end - pos) == c.skip(end as int));
                }
                let arrow = len - pos >= 3 && ciphertext[pos] == 45 && ciphertext[pos + 1] == 62
                    && ciphertext[pos + 2] == 32;
                assert(arrow == has_arrow(rest));
                if arrow {
                    let name = copy_range(ciphertext, pos + 3, j);
                    proof {
                        let n = end - pos;
                        let e = if n > 0 && rest[n - 1] == 10 {
                            n - 1
                        } else {
                            n
                        };
                        assert(e == j - pos);
                        assert(rest.subrange(3, e) == c.subrange(pos + 3, j as int));
                        let before = recipients@.map_values(|v: Vec<u8>| v@);
                        assert(header_recipients(rest) == seq![rest.subrange(3, e)]
                            + header_recipients(c.skip(end as int)));
                        assert(before.push(name@) + header_recipients(c.skip(end as int)) =~= before
                            + (seq![rest.subrange(3, e)] + header_recipients(c.skip(end as int))));
                    }
                    let ghost before = recipients@.map_values(|v: Vec<u8>| v@);
                    recipients.push(name);
                    assert(recipients@.map_values(|v: Vec<u8>| v@) =~= before.push(name@));
                } else {
                    assert(header_recipients(rest) == Seq::<Seq<u8>>::empty());
                    assert(recipients@.map_values(|v: Vec<u8>| v@) + Seq::<Seq<u8>>::empty()
                        =~= recipients@.map_values(|v: Vec<u8>| v@));
                    done = true;
                }
                pos = end;
            }
        }
        let body = copy_range(ciphertext, pos, len);
        assert(c.subrange(pos as int, len as int) == c.skip(pos as int));
        Decrypted { recipients, body }
    }
}

/// No recipient text holds a line break.
pub open spec fn single_lines(rs: Seq<Seq<char>>) -> bool {
    forall|i: int| 0 <= i < rs.len() ==> !(#[trigger] rs[i]).contains('\n')
}

proof fn lemma_ascii_bytes(t: Seq<char>, b: Seq<u8>)
    requires
        is_ascii_chars(t),
        b.len() == t.len(),
        forall|i: int| 0 <= i < t.len() ==> b[i] == t[i] as u8,
    ensures
        encode_utf8(t) == b,
{
    is_ascii_chars_encode_utf8(t);
    assert(encode_utf8(t) =~= b);
}

/// Reading past the header written for recipients whose texts hold no line
/// break gives back exactly what follows the header.
pub proof fn lemma_header_round_trip(rs: Seq<Seq<char>>, body: Seq<u8>)
    requires
        single_lines(rs),
    ensures
        body_of(encode_utf8(header(rs)) + body) == body,
        header_recipients(encode_utf8(header(rs)) + body) == rs.map_values(
            |r: Seq<char>| encode_utf8(r),
        ),
    decreases rs.len(),
{
    reveal_strlit("-> ");
    reveal_strlit("---");
    if rs.len() == 0 {
        let sep = "---"@ + seq!['\n'];
        lemma_ascii_bytes(sep, seq![45u8, 45u8, 45u8, 10u8]);
        let c = seq![45u8, 45u8, 45u8, 10u8] + body;
        assert(!has_arrow(c));
        assert(is_first_break(c, 3));
        let q = choose|q: int| is_first_break(c, q);
        assert(q == 3);
        assert(c.skip(4) =~= body);
        assert(rs.map_values(|r: Seq<char>| encode_utf8(r)) =~= Seq::<Seq<u8>>::empty());
    } else {
        let r = rs[0];
        let rest = rs.drop_first();
        assert(single_lines(rest)) by {
            assert forall|i: int| 0 <= i < rest.len() implies !(#[trigger] rest[i]).contains('\n') by {
                assert(rest[i] == rs[i + 1]);
            }
        }
        assert(!r.contains('\n'));
        let arrow = "-> "@;
        let br = seq!['\n'];
        let hr = header(rest);
        assert(header(rs) == arrow + r + br + hr);
        lemma_encode_concat(arrow + r + br, hr);
        lemma_encode_concat(arrow + r, br);
        lemma_encode_concat(arrow, r);
        lemma_ascii_bytes(arrow, seq![45u8, 62u8, 32u8]);
        lemma_ascii_bytes(br, seq![10u8]);
        let e = encode_utf8(r);
        lemma_encode_no_break(r);
        let tail = encode_utf8(hr) + body;
        let c = seq![45u8, 62u8, 32u8] + e + seq![10u8] + tail;
        assert(encode_utf8(header(rs)) + body =~= c);
        assert(has_arrow(c));
        let n = (3 + e.len()) as int;
        assert forall|k: int| 0 <= k < n implies c[k] != 10u8 by {
            if k >= 3 {
                assert(c[k] == e[k - 3]);
            }
        }
        assert(c[n] == 10u8);
        assert(is_first_break(c, n));
        let q = choose|q: int| is_first_break(c, q);
        assert(q == n);
        assert(first_line_len(c) == n + 1);
        assert(c.skip(n + 1) =~= tail);
        assert(c.subrange(3, n) =~= e);
        lemma_header_round_trip(rest, body);
        assert(rs.map_values(|r: Seq<char>| encode_utf8(r)) =~= seq![e] + rest.map_values(
            |r: Seq<char>| encode_utf8(r),
        ));
    }
}

/// The error of the transparent backend, which is never given: sealing and
/// opening always succeed.
pub struct Error;

impl crypto::Backend for Transparent {
    type Recipient = Recipient;
    type Error = Error;

    open spec fn plaintext(&self, c: Seq<u8>) -> Option<Seq<u8>> {
        Some(body_of(c))
    }

    open spec fn sealed(&self, recipients: Seq<Seq<char>>, plaintext: Seq<u8>, out: Seq<u8>) -> bool {
        out == encode_utf8(header(recipients)) + plaintext
    }

    open spec fn seals(&self, recipients: Seq<Seq<char>>) -> bool {
        true
    }

    fn seal(&self, recipients: Vec<Recipient>, plaintext: &[u8]) -> (r: Result<Vec<u8>, Error>) {
        let ghost rs = recipient_models(recipients@);
        assert(rs =~= recipients@.map_values(|x: Recipient| x@));
        let mut sink = self.encrypt_output(Vec::new(), recipients);
        sink.write(plaintext);
        let out = sink.finish();
        assert(Seq::<u8>::empty() + encode_utf8(header(rs)) =~= encode_utf8(header(rs)));
        Ok(out)
    }

    fn open(&self, c: &[u8]) -> (r: Result<Vec<u8>, Error>) {
        Ok(self.decrypt_input(c).into_body())
    }
}

} // verus!
