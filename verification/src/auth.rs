//! The Ed25519 key that signs requests: read from a PKCS#8 PEM file, and used
//! to sign each request's timestamp, method, path, query and body.

use base64::Engine;
use ed25519_dalek::pkcs8::DecodePrivateKey;
use ed25519_dalek::Signer;
use vstd::prelude::*;
use vstd::utf8::encode_utf8;

use crate::text::{
    chars_of, decimal, decimal_string, digits_value, is_digit, lemma_decimal_reads_back,
    string_from_chars,
};

verus! {

/// A line of PEM armour: one that starts with five dashes, as the
/// `BEGIN` and `END` lines of a PEM document do.
pub open spec fn is_armor_line(line: Seq<char>) -> bool {
    &&& line.len() >= 5
    &&& forall|i: int| 0 <= i < 5 ==> line[i] == '-'
}

/// `line` without one trailing carriage return.
pub open spec fn strip_cr(line: Seq<char>) -> Seq<char> {
    if line.len() > 0 && line.last() == '\r' {
        line.drop_last()
    } else {
        line
    }
}

/// The lines of `s` that a newline has ended, and the text after the last
/// newline.
pub open spec fn split_lines(s: Seq<char>) -> (Seq<Seq<char>>, Seq<char>)
    decreases s.len(),
{
    if s.len() == 0 {
        (Seq::empty(), Seq::empty())
    } else {
        let (done, cur) = split_lines(s.drop_last());
        if s.last() == '\n' {
            (done.push(strip_cr(cur)), Seq::empty())
        } else {
            (done, cur.push(s.last()))
        }
    }
}

/// The lines of `s` as `str::lines` gives them: split at `"\n"` or
/// `"\r\n"`, the final line ending optional.
pub open spec fn lines(s: Seq<char>) -> Seq<Seq<char>> {
    let (done, cur) = split_lines(s);
    if cur.len() > 0 {
        done.push(cur)
    } else {
        done
    }
}

/// The lines that are not armour, joined together.
pub open spec fn join_unarmored(lines: Seq<Seq<char>>) -> Seq<char>
    decreases lines.len(),
{
    if lines.len() == 0 {
        Seq::empty()
    } else if is_armor_line(lines.last()) {
        join_unarmored(lines.drop_last())
    } else {
        join_unarmored(lines.drop_last()) + lines.last()
    }
}

/// The Base64 text of a PEM document: its lines, less the armour lines,
/// joined together.
pub open spec fn pem_base64(pem: Seq<char>) -> Seq<char> {
    join_unarmored(lines(pem))
}

/// The lines `lines`, each followed by `end`.
pub open spec fn terminated(lines: Seq<Seq<char>>, end: Seq<char>) -> Seq<char>
    decreases lines.len(),
{
    if lines.len() == 0 {
        Seq::empty()
    } else {
        terminated(lines.drop_last(), end) + lines.last() + end
    }
}

/// The lines `lines` run together.
pub open spec fn joined(lines: Seq<Seq<char>>) -> Seq<char>
    decreases lines.len(),
{
    if lines.len() == 0 {
        Seq::empty()
    } else {
        joined(lines.drop_last()) + lines.last()
    }
}

/// `line` holds no line feed and no carriage return.
pub open spec fn is_single_line(line: Seq<char>) -> bool {
    forall|i: int| 0 <= i < line.len() ==> #[trigger] line[i] != '\n' && line[i] != '\r'
}

proof fn lemma_split_lines_append(x: Seq<char>, l: Seq<char>)
    requires
        is_single_line(l),
    ensures
        split_lines(x + l) == (split_lines(x).0, split_lines(x).1 + l),
    decreases l.len(),
{
    if l.len() == 0 {
        assert(x + l == x);
        assert(split_lines(x).1 + l == split_lines(x).1);
    } else {
        let init = l.drop_last();
        assert forall|i: int| 0 <= i < init.len() implies #[trigger] init[i] != '\n' && init[i]
            != '\r' by {
            assert(init[i] == l[i]);
        }
        lemma_split_lines_append(x, init);
        assert((x + l).drop_last() == x + init);
        assert((x + l).last() == l.last());
        assert(l.last() != '\n');
        assert(split_lines(x).1 + init + seq![l.last()] == split_lines(x).1 + l);
    }
}

proof fn lemma_split_terminated(lines: Seq<Seq<char>>, crlf: bool)
    requires
        forall|i: int| 0 <= i < lines.len() ==> is_single_line(#[trigger] lines[i]),
    ensures
        split_lines(terminated(lines, if crlf { seq!['\r', '\n'] } else { seq!['\n'] })) == (
            lines,
            Seq::<char>::empty(),
        ),
    decreases lines.len(),
{
    let end = if crlf {
        seq!['\r', '\n']
    } else {
        seq!['\n']
    };
    if lines.len() == 0 {
        assert(split_lines(Seq::<char>::empty()) == (Seq::<Seq<char>>::empty(), Seq::<char>::empty()));
        assert(lines == Seq::<Seq<char>>::empty());
    } else {
        let init = lines.drop_last();
        let l = lines.last();
        assert forall|i: int| 0 <= i < init.len() implies is_single_line(#[trigger] init[i]) by {
            assert(init[i] == lines[i]);
        }
        lemma_split_terminated(init, crlf);
        let x = terminated(init, end);
        assert(is_single_line(lines[lines.len() - 1]));
        lemma_split_lines_append(x, l);
        assert(split_lines(x + l) == (init, l));
        let y = x + l;
        if crlf {
            assert((y + end).drop_last() == y.push('\r'));
            assert(y.push('\r').drop_last() == y);
            assert(split_lines(y.push('\r')) == (init, l.push('\r')));
            assert(strip_cr(l.push('\r')) == l);
        } else {
            assert((y + end).drop_last() == y);
            if l.len() > 0 {
                assert(l.last() != '\r');
            }
            assert(strip_cr(l) == l);
        }
        assert(init.push(l) == lines);
        assert(terminated(lines, end) == y + end);
    }
}

/// A line that starts with five dashes.
pub open spec fn starts_with_dashes(line: Seq<char>) -> bool {
    line.len() >= 5 && line.subrange(0, 5) == seq!['-', '-', '-', '-', '-']
}

proof fn lemma_join_body(header: Seq<char>, body: Seq<Seq<char>>)
    requires
        starts_with_dashes(header),
        forall|i: int| 0 <= i < body.len() ==> (#[trigger] body[i]).len() > 0 && body[i][0] != '-',
    ensures
        join_unarmored(seq![header] + body) == joined(body),
    decreases body.len(),
{
    if body.len() == 0 {
        assert(seq![header] + body == seq![header]);
        assert(seq![header].drop_last() == Seq::<Seq<char>>::empty());
        assert(header[0] == header.subrange(0, 5)[0]);
        assert forall|i: int| 0 <= i < 5 implies header[i] == '-' by {
            assert(header[i] == header.subrange(0, 5)[i]);
        }
        assert(is_armor_line(header));
        assert((seq![header] + body).last() == header);
        assert(join_unarmored(seq![header] + body) == join_unarmored(Seq::<Seq<char>>::empty()));
    } else {
        let init = body.drop_last();
        assert forall|i: int| 0 <= i < init.len() implies (#[trigger] init[i]).len() > 0
            && init[i][0] != '-' by {
            assert(init[i] == body[i]);
        }
        lemma_join_body(header, init);
        assert((seq![header] + body).drop_last() == seq![header] + init);
        assert((seq![header] + body).last() == body.last());
        assert(body[body.len() - 1].len() > 0 && body[body.len() - 1][0] != '-');
        assert(!is_armor_line(body.last()));
        assert(join_unarmored(seq![header] + body) == join_unarmored(seq![header] + init)
            + body.last());
        assert(joined(body) == joined(init) + body.last());
    }
}

/// The Base64 text of a PEM document written as an armour line, body lines
/// and an armour line, each ended by `"\n"` or by `"\r\n"`, is exactly the
/// body lines run together: the armour is dropped and every body character
/// is kept, in order.
pub proof fn lemma_pem_base64_of_document(
    header: Seq<char>,
    body: Seq<Seq<char>>,
    footer: Seq<char>,
    crlf: bool,
)
    requires
        starts_with_dashes(header),
        starts_with_dashes(footer),
        is_single_line(header),
        is_single_line(footer),
        forall|i: int|
            0 <= i < body.len() ==> is_single_line(#[trigger] body[i]) && body[i].len() > 0
                && body[i][0] != '-',
    ensures
        pem_base64(
            terminated(
                seq![header] + body + seq![footer],
                if crlf {
                    seq!['\r', '\n']
                } else {
                    seq!['\n']
                },
            ),
        ) == joined(body),
{
    let all = seq![header] + body + seq![footer];
    assert forall|i: int| 0 <= i < all.len() implies is_single_line(#[trigger] all[i]) by {
        if i == 0 {
            assert(all[i] == header);
        } else if i == all.len() - 1 {
            assert(all[i] == footer);
        } else {
            assert(all[i] == body[i - 1]);
        }
    }
    lemma_split_terminated(all, crlf);
    assert forall|i: int| 0 <= i < body.len() implies (#[trigger] body[i]).len() > 0 && body[i][0]
        != '-' by {
        assert(is_single_line(body[i]) && body[i].len() > 0 && body[i][0] != '-');
    }
    lemma_join_body(header, body);
    assert(all.drop_last() == seq![header] + body);
    assert(all.last() == footer);
    assert forall|i: int| 0 <= i < 5 implies footer[i] == '-' by {
        assert(footer[i] == footer.subrange(0, 5)[i]);
    }
    assert(is_armor_line(footer));
}

fn armor_line(line: &Vec<char>) -> (res: bool)
    ensures
        res == is_armor_line(line@),
{
    line.len() >= 5 && line[0] == '-' && line[1] == '-' && line[2] == '-' && line[3] == '-'
        && line[4] == '-'
}

/// The Base64 text of a PEM document (every line but those that start with
/// `-----`, joined).
pub fn pem_body(pem: &str) -> (res: String)
    ensures
        res@ == pem_base64(pem@),
{
    let cs = chars_of(pem);
    let n = cs.len();
    let mut out: Vec<char> = Vec::new();
    let mut cur: Vec<char> = Vec::new();
    for i in 0..n
        invariant
            n == cs@.len(),
            out@ == join_unarmored(split_lines(cs@.take(i as int)).0),
            cur@ == split_lines(cs@.take(i as int)).1,
    {
        let ghost prefix = cs@.take(i + 1);
        assert(prefix.drop_last() == cs@.take(i as int));
        let ghost done = split_lines(cs@.take(i as int)).0;
        let c = cs[i];
        if c == '\n' {
            if cur.len() > 0 && cur[cur.len() - 1] == '\r' {
                cur.pop();
            }
            let ghost line = cur@;
            assert(line == strip_cr(split_lines(cs@.take(i as int)).1));
            assert(split_lines(prefix).0 == done.push(line));
            assert(done.push(line).drop_last() == done);
            if !armor_line(&cur) {
                out.append(&mut cur);
            } else {
                cur.clear();
            }
        } else {
            cur.push(c);
        }
    }
    assert(cs@.take(n as int) == cs@);
    let ghost done = split_lines(cs@).0;
    let ghost last = cur@;
    if cur.len() > 0 {
        assert(lines(pem@) == done.push(last));
        assert(done.push(last).drop_last() == done);
        if !armor_line(&cur) {
            out.append(&mut cur);
        }
    }
    string_from_chars(&out)
}


#[verifier::external_type_specification]
#[verifier::external_body]
pub struct ExDecodeError(base64::DecodeError);

#[verifier::external_type_specification]
#[verifier::external_body]
pub struct ExPkcs8Error(ed25519_dalek::pkcs8::Error);

/// The bytes that the standard, padded Base64 engine decodes `text` to, or
/// `None` where it refuses the text.
pub uninterp spec fn base64_decoded(text: Seq<char>) -> Option<Seq<u8>>;

/// The standard, padded Base64 encoding of `bytes`.
pub uninterp spec fn base64_encoded(bytes: Seq<u8>) -> Seq<char>;

/// The 32-byte Ed25519 secret held by a PKCS#8 DER document, or `None` where
/// the document is not a valid Ed25519 private key.
pub uninterp spec fn pkcs8_ed25519_secret(der: Seq<u8>) -> Option<Seq<u8>>;

/// The Ed25519 signature (RFC 8032, deterministic) of `message` under the
/// key with secret `secret`.
pub uninterp spec fn ed25519_signature(secret: Seq<u8>, message: Seq<u8>) -> Seq<u8>;

/// `base64::engine::general_purpose::STANDARD.decode`: succeeds exactly where
/// `base64_decoded` has a value, and then returns it.
#[verifier::external_body]
fn base64_decode(text: &str) -> (res: Result<Vec<u8>, base64::DecodeError>)
    ensures
        res is Ok <==> base64_decoded(text@) is Some,
        res matches Ok(bytes) ==> base64_decoded(text@) == Some(bytes@),
{
    base64::engine::general_purpose::STANDARD.decode(text)
}

/// `base64::engine::general_purpose::STANDARD.encode`: returns
/// `base64_encoded(bytes)`. It panics where the encoded length overflows
/// `usize`, which the precondition leaves out.
#[verifier::external_body]
fn base64_encode(bytes: &[u8]) -> (res: String)
    requires
        bytes@.len() <= 3 * (usize::MAX / 4),
    ensures
        res@ == base64_encoded(bytes@),
{
    base64::engine::general_purpose::STANDARD.encode(bytes)
}

/// `ed25519_dalek::SigningKey::from_pkcs8_der`, followed by `to_bytes`:
/// succeeds exactly where `pkcs8_ed25519_secret` has a value, and then returns
/// that secret.
#[verifier::external_body]
fn pkcs8_secret(der: &[u8]) -> (res: Result<[u8; 32], ed25519_dalek::pkcs8::Error>)
    ensures
        res is Ok <==> pkcs8_ed25519_secret(der@) is Some,
        res matches Ok(secret) ==> pkcs8_ed25519_secret(der@) == Some(secret@),
{
    match ed25519_dalek::SigningKey::from_pkcs8_der(der) {
        Ok(key) => Ok(key.to_bytes()),
        Err(e) => Err(e),
    }
}

/// `ed25519_dalek::SigningKey::sign` on the key built by `from_bytes(secret)`:
/// returns `ed25519_signature(secret, message)` in its 64-byte form.
#[verifier::external_body]
fn ed25519_sign(secret: &[u8; 32], message: &[u8]) -> (res: [u8; 64])
    ensures
        res@ == ed25519_signature(secret@, message@),
{
    ed25519_dalek::SigningKey::from_bytes(secret).sign(message).to_bytes()
}

/// An Ed25519 private key, held as its 32-byte secret.
pub struct PrivateKey {
    secret: [u8; 32],
}

impl View for PrivateKey {
    type V = Seq<u8>;

    closed spec fn view(&self) -> Seq<u8> {
        self.secret@
    }
}

impl PrivateKey {
    /// The key whose secret is `secret`.
    pub fn from_secret(secret: [u8; 32]) -> (res: PrivateKey)
        ensures
            res@ == secret@,
    {
        PrivateKey { secret }
    }

    /// The 32-byte secret of the key.
    pub fn secret(&self) -> (res: [u8; 32])
        ensures
            res@ == self@,
    {
        self.secret
    }
}

/// Why no key could be read from a PEM document.
pub enum KeyError {
    /// The text between the armour lines is not valid Base64.
    Base64(base64::DecodeError),
    /// The decoded document is not a PKCS#8 Ed25519 private key.
    Pkcs8(ed25519_dalek::pkcs8::Error),
}

/// The secret that a PEM document holds, where it holds one: its Base64 text
/// decoded, then read as PKCS#8.
pub open spec fn pem_secret(pem: Seq<char>) -> Option<Seq<u8>> {
    match base64_decoded(pem_base64(pem)) {
        Some(der) => pkcs8_ed25519_secret(der),
        None => None,
    }
}

/// The signing key in a PKCS#8 PEM document (the content of
/// `keys/private.pem`).
pub fn signing_key_from_pem(pem: &str) -> (res: Result<PrivateKey, KeyError>)
    ensures
        res is Ok <==> pem_secret(pem@) is Some,
        res matches Ok(key) ==> pem_secret(pem@) == Some(key@),
        res matches Err(e) ==> (e is Base64 <==> base64_decoded(pem_base64(pem@)) is None),
{
    let body = pem_body(pem);
    let der = match base64_decode(body.as_str()) {
        Ok(der) => der,
        Err(e) => return Err(KeyError::Base64(e)),
    };
    match pkcs8_secret(der.as_slice()) {
        Ok(secret) => Ok(PrivateKey { secret }),
        Err(e) => Err(KeyError::Pkcs8(e)),
    }
}

/// The text that is signed for a request: the timestamp in decimal, then
/// the method, the path, the query and the body.
pub open spec fn signing_message(
    timestamp: nat,
    method: Seq<char>,
    path: Seq<char>,
    query: Seq<char>,
    body: Seq<char>,
) -> Seq<char> {
    decimal(timestamp) + method + path + query + body
}

/// The signed text is laid out field by field: the timestamp's decimal
/// digits (which read back as the timestamp), then the whole method text
/// (all of `DELETE`, say), then the path, the query and the body, each whole
/// and in that order, with nothing else.
pub proof fn lemma_signing_message_layout(
    timestamp: nat,
    method: Seq<char>,
    path: Seq<char>,
    query: Seq<char>,
    body: Seq<char>,
)
    ensures
        ({
            let msg = signing_message(timestamp, method, path, query, body);
            let d = decimal(timestamp).len() as int;
            let m = d + method.len();
            let p = m + path.len();
            let q = p + query.len();
            &&& d > 0
            &&& msg.len() == q + body.len()
            &&& forall|i: int| 0 <= i < d ==> is_digit(#[trigger] msg[i])
            &&& digits_value(msg.subrange(0, d)) == timestamp
            &&& msg.subrange(d, m) == method
            &&& msg.subrange(m, p) == path
            &&& msg.subrange(p, q) == query
            &&& msg.subrange(q, msg.len() as int) == body
        }),
{
    lemma_decimal_reads_back(timestamp);
    let t = decimal(timestamp);
    let msg = signing_message(timestamp, method, path, query, body);
    let d = t.len() as int;
    assert(msg.subrange(0, d) == t);
    assert forall|i: int| 0 <= i < d implies is_digit(#[trigger] msg[i]) by {
        assert(msg[i] == t[i]);
    }
    assert(msg.subrange(d, d + method.len()) == method);
    assert(msg.subrange(d + method.len(), d + method.len() + path.len()) == path);
    assert(msg.subrange(
        d + method.len() + path.len(),
        d + method.len() + path.len() + query.len(),
    ) == query);
    assert(msg.subrange(d + method.len() + path.len() + query.len(), msg.len() as int) == body);
}

/// The signature header of a request: the Base64 of the Ed25519 signature of
/// the UTF-8 bytes of the signing message.
pub open spec fn request_signature(
    key: Seq<u8>,
    timestamp: nat,
    method: Seq<char>,
    path: Seq<char>,
    query: Seq<char>,
    body: Seq<char>,
) -> Seq<char> {
    base64_encoded(
        ed25519_signature(key, encode_utf8(signing_message(timestamp, method, path, query, body))),
    )
}

/// Signs a request made at `timestamp` (milliseconds since the Unix epoch)
/// and returns the Base64 signature that goes into its header.
pub fn sign_request(
    private_key: &PrivateKey,
    method: &str,
    path: &str,
    query: &str,
    body: &str,
    timestamp: u128,
) -> (res: String)
    ensures
        res@ == request_signature(private_key@, timestamp as nat, method@, path@, query@, body@),
{
    let mut message = decimal_string(timestamp);
    message.append(method);
    message.append(path);
    message.append(query);
    message.append(body);
    assert(message@ == signing_message(timestamp as nat, method@, path@, query@, body@));
    let bytes = message.as_str().as_bytes();
    let signature = ed25519_sign(&private_key.secret, bytes);
    base64_encode(signature.as_slice())
}

} // verus!
