use crate::cli::KeyValueOpt;
use crate::errors::RdmaError;
use vstd::prelude::*;
use vstd::slice::slice_subrange;
use vstd::utf8::decode_utf8;
use vstd::utf8::encode_utf8;
use vstd::utf8::encode_utf8_decode_utf8;
use vstd::utf8::encode_utf8_valid_utf8;
use vstd::utf8::valid_utf8;

verus! {

/// Tag byte of a lookup request.
pub const TAG_GET: u8 = 0x47;

/// Tag byte of an insert-or-overwrite request.
pub const TAG_PUT: u8 = 0x50;

/// Tag byte of a removal request.
pub const TAG_DELETE: u8 = 0x44;

/// Tag byte of the server's answer to a lookup.
pub const TAG_REPLY: u8 = 0x52;

/// Separator between the key and the value of an insert request.
pub const SEP: u8 = 0x1f;

/// Escape byte; it protects the zero byte, the separator and itself.
pub const ESC: u8 = 0x1b;

pub const ESC_CODE_ZERO: u8 = 0x30;

pub const ESC_CODE_ESC: u8 = 0x31;

pub const ESC_CODE_SEP: u8 = 0x32;

/// Wire form of one byte: bytes that carry structure (the zero used as
/// padding, the separator, the escape byte itself) travel as two-byte escape
/// pairs, every other byte travels as itself.
pub open spec fn esc_byte(b: u8) -> Seq<u8> {
    if b == 0u8 {
        seq![ESC, ESC_CODE_ZERO]
    } else if b == ESC {
        seq![ESC, ESC_CODE_ESC]
    } else if b == SEP {
        seq![ESC, ESC_CODE_SEP]
    } else {
        seq![b]
    }
}

/// Wire form of a byte string: each byte escaped in order.
pub open spec fn escape(s: Seq<u8>) -> Seq<u8>
    decreases s.len(),
{
    if s.len() == 0 {
        Seq::empty()
    } else {
        esc_byte(s[0]) + escape(s.skip(1))
    }
}

pub open spec fn unesc_code(c: u8) -> u8 {
    if c == ESC_CODE_ZERO {
        0u8
    } else if c == ESC_CODE_ESC {
        ESC
    } else {
        SEP
    }
}

pub open spec fn is_esc_code(c: u8) -> bool {
    c == ESC_CODE_ZERO || c == ESC_CODE_ESC || c == ESC_CODE_SEP
}

/// Inverse of [`escape`]; `None` on byte strings that no escape produces
/// (a trailing escape byte, or an escape pair with an unknown second byte).
pub open spec fn unescape(s: Seq<u8>) -> Option<Seq<u8>>
    decreases s.len(),
{
    if s.len() == 0 {
        Some(Seq::empty())
    } else if s[0] == ESC {
        if s.len() >= 2 && is_esc_code(s[1]) {
            match unescape(s.skip(2)) {
                Some(r) => Some(seq![unesc_code(s[1])] + r),
                None => None,
            }
        } else {
            None
        }
    } else {
        match unescape(s.skip(1)) {
            Some(r) => Some(seq![s[0]] + r),
            None => None,
        }
    }
}

pub proof fn lemma_escape_single(b: u8)
    ensures
        escape(seq![b]) == esc_byte(b),
{
    assert(seq![b].skip(1) =~= Seq::<u8>::empty());
    assert(escape(Seq::<u8>::empty()) =~= Seq::<u8>::empty());
    assert(escape(seq![b]) =~= esc_byte(b) + escape(seq![b].skip(1)));
    assert(esc_byte(b) + Seq::<u8>::empty() =~= esc_byte(b));
}

pub proof fn lemma_escape_app(a: Seq<u8>, b: Seq<u8>)
    ensures
        escape(a + b) == escape(a) + escape(b),
    decreases a.len(),
{
    if a.len() == 0 {
        assert(a + b =~= b);
        assert(escape(a) + escape(b) =~= escape(b));
    } else {
        assert((a + b).skip(1) =~= a.skip(1) + b);
        lemma_escape_app(a.skip(1), b);
        assert(escape(a + b) =~= esc_byte(a[0]) + (escape(a.skip(1)) + escape(b)));
        assert(esc_byte(a[0]) + (escape(a.skip(1)) + escape(b)) =~= (esc_byte(a[0]) + escape(
            a.skip(1),
        )) + escape(b));
    }
}

/// Escaped byte strings never contain the padding zero or the separator.
pub proof fn lemma_escape_no_special(s: Seq<u8>)
    ensures
        forall|i: int|
            0 <= i < escape(s).len() ==> #[trigger] escape(s)[i] != 0u8 && escape(s)[i] != SEP,
    decreases s.len(),
{
    if s.len() > 0 {
        lemma_escape_no_special(s.skip(1));
        assert forall|i: int|
            0 <= i < escape(s).len() implies #[trigger] escape(s)[i] != 0u8 && escape(s)[i]
            != SEP by {
            let head = esc_byte(s[0]);
            if i < head.len() {
                assert(escape(s)[i] == head[i]);
            } else {
                assert(escape(s)[i] == escape(s.skip(1))[i - head.len()]);
            }
        }
    }
}

/// Unescaping undoes escaping on every byte string.
pub proof fn lemma_unescape_escape(s: Seq<u8>)
    ensures
        unescape(escape(s)) == Some(s),
    decreases s.len(),
{
    if s.len() == 0 {
        assert(escape(s) =~= Seq::<u8>::empty());
    } else {
        lemma_unescape_escape(s.skip(1));
        let e = escape(s);
        let head = esc_byte(s[0]);
        if s[0] == 0u8 || s[0] == ESC || s[0] == SEP {
            assert(e[0] == ESC && e[1] == head[1]);
            assert(e.skip(2) =~= escape(s.skip(1)));
            assert(unesc_code(e[1]) == s[0]);
            assert(seq![s[0]] + s.skip(1) =~= s);
        } else {
            assert(e[0] == s[0] && e[0] != ESC);
            assert(e.skip(1) =~= escape(s.skip(1)));
            assert(seq![s[0]] + s.skip(1) =~= s);
        }
    }
}

/// Index of the first occurrence of `b` in `s`, or `s.len()` if absent.
pub open spec fn spec_find(s: Seq<u8>, b: u8) -> int
    decreases s.len(),
{
    if s.len() == 0 {
        0
    } else if s[0] == b {
        0
    } else {
        1 + spec_find(s.skip(1), b)
    }
}

pub proof fn lemma_spec_find(s: Seq<u8>, b: u8)
    ensures
        0 <= spec_find(s, b) <= s.len(),
        spec_find(s, b) < s.len() ==> s[spec_find(s, b)] == b,
        forall|i: int| 0 <= i < spec_find(s, b) ==> s[i] != b,
    decreases s.len(),
{
    if s.len() > 0 && s[0] != b {
        lemma_spec_find(s.skip(1), b);
        assert forall|i: int| 0 <= i < spec_find(s, b) implies s[i] != b by {
            if i > 0 {
                assert(s.skip(1)[i - 1] == s[i]);
            }
        }
    }
}

pub proof fn lemma_spec_find_unique(s: Seq<u8>, b: u8, k: int)
    requires
        0 <= k <= s.len(),
        forall|i: int| 0 <= i < k ==> s[i] != b,
        k < s.len() ==> s[k] == b,
    ensures
        spec_find(s, b) == k,
    decreases s.len(),
{
    if s.len() > 0 && k > 0 {
        assert forall|i: int| 0 <= i < k - 1 implies s.skip(1)[i] != b by {
            assert(s.skip(1)[i] == s[i + 1]);
        }
        assert(k - 1 < s.skip(1).len() ==> s.skip(1)[k - 1] == b);
        lemma_spec_find_unique(s.skip(1), b, k - 1);
    }
}

/// A message occupies the front of the fixed-capacity buffer; the rest is
/// zero padding. Stripping takes the bytes up to the first zero.
pub open spec fn spec_strip(s: Seq<u8>) -> Seq<u8> {
    s.take(spec_find(s, 0u8))
}

/// A byte string padded with zeros up to the buffer capacity.
pub open spec fn spec_pad(s: Seq<u8>, cap: nat) -> Seq<u8>
    recommends
        s.len() <= cap,
{
    s + Seq::new((cap - s.len()) as nat, |i: int| 0u8)
}

/// The abstract content of a wire message, the form the contracts speak of.
pub enum MessageView {
    Get { key: Seq<char> },
    Put { key: Seq<char>, value: Seq<char> },
    Delete { key: Seq<char> },
    Reply { value: Seq<char> },
}

/// One message as it crosses the shared buffer: a client operation, or the
/// server's answer to a lookup.
#[derive(Debug, PartialEq, Eq)]
pub enum Message {
    Op(KeyValueOpt),
    Reply(String),
}

impl View for KeyValueOpt {
    type V = MessageView;

    open spec fn view(&self) -> MessageView {
        match self {
            KeyValueOpt::Get { key } => MessageView::Get { key: key@ },
            KeyValueOpt::Put { key, value } => MessageView::Put { key: key@, value: value@ },
            KeyValueOpt::Delete { key } => MessageView::Delete { key: key@ },
        }
    }
}

impl View for Message {
    type V = MessageView;

    open spec fn view(&self) -> MessageView {
        match self {
            Message::Op(op) => op@,
            Message::Reply(value) => MessageView::Reply { value: value@ },
        }
    }
}

/// Wire form of a message: a tag byte, then the escaped UTF-8 bytes of the
/// fields, with the separator between the two fields of an insert.
pub open spec fn spec_encode_msg(v: MessageView) -> Seq<u8> {
    match v {
        MessageView::Get { key } => seq![TAG_GET] + escape(encode_utf8(key)),
        MessageView::Put { key, value } => seq![TAG_PUT] + escape(encode_utf8(key)) + seq![SEP]
            + escape(encode_utf8(value)),
        MessageView::Delete { key } => seq![TAG_DELETE] + escape(encode_utf8(key)),
        MessageView::Reply { value } => seq![TAG_REPLY] + escape(encode_utf8(value)),
    }
}

pub open spec fn spec_decode_field(body: Seq<u8>) -> Option<Seq<char>> {
    match unescape(body) {
        Some(bs) => if valid_utf8(bs) {
            Some(decode_utf8(bs))
        } else {
            None
        },
        None => None,
    }
}

pub open spec fn spec_decode_body(tag: u8, body: Seq<u8>) -> Option<MessageView> {
    if tag == TAG_PUT {
        let i = spec_find(body, SEP);
        if i == body.len() {
            None
        } else {
            match spec_decode_field(body.take(i)) {
                Some(key) => match spec_decode_field(body.skip(i + 1)) {
                    Some(value) => Some(MessageView::Put { key, value }),
                    None => None,
                },
                None => None,
            }
        }
    } else {
        match spec_decode_field(body) {
            Some(field) => if tag == TAG_GET {
                Some(MessageView::Get { key: field })
            } else if tag == TAG_DELETE {
                Some(MessageView::Delete { key: field })
            } else if tag == TAG_REPLY {
                Some(MessageView::Reply { value: field })
            } else {
                None
            },
            None => None,
        }
    }
}

/// What a buffer's bytes mean: padding stripped, then tag and fields parsed.
/// `None` when the bytes are not the padded wire form of any message.
pub open spec fn spec_decode_msg(s: Seq<u8>) -> Option<MessageView> {
    let t = spec_strip(s);
    if t.len() == 0 {
        None
    } else {
        spec_decode_body(t[0], t.skip(1))
    }
}

#[verifier::external_type_specification]
#[verifier::external_body]
pub struct ExFromUtf8Error(std::string::FromUtf8Error);

/// Relies on `String::from_utf8`: it succeeds exactly on valid UTF-8 input,
/// and the string it returns holds exactly the given bytes.
pub assume_specification[ String::from_utf8 ](v: Vec<u8>) -> (r: Result<
    String,
    std::string::FromUtf8Error,
>)
    ensures
        r is Ok <==> valid_utf8(v@),
        r matches Ok(s) ==> encode_utf8(s@) == v@,
;

/// Append the wire form of one byte.
fn escape_push(out: &mut Vec<u8>, b: u8)
    ensures
        final(out)@ == old(out)@ + esc_byte(b),
{
    if b == 0u8 {
        out.push(ESC);
        out.push(ESC_CODE_ZERO);
    } else if b == ESC {
        out.push(ESC);
        out.push(ESC_CODE_ESC);
    } else if b == SEP {
        out.push(ESC);
        out.push(ESC_CODE_SEP);
    } else {
        out.push(b);
    }
    proof {
        assert(out@ =~= old(out)@ + esc_byte(b));
    }
}

/// Append the wire form of a byte string.
fn append_escaped(out: &mut Vec<u8>, bytes: &[u8])
    ensures
        final(out)@ == old(out)@ + escape(bytes@),
{
    let mut i: usize = 0;
    while i < bytes.len()
        invariant
            i <= bytes@.len(),
            out@ == old(out)@ + escape(bytes@.take(i as int)),
        decreases bytes@.len() - i,
    {
        let b = bytes[i];
        escape_push(out, b);
        proof {
            assert(bytes@.take(i + 1) =~= bytes@.take(i as int) + seq![bytes@[i as int]]);
            lemma_escape_app(bytes@.take(i as int), seq![bytes@[i as int]]);
            lemma_escape_single(bytes@[i as int]);
            assert(out@ =~= old(out)@ + escape(bytes@.take(i + 1)));
        }
        i = i + 1;
    }
    proof {
        assert(bytes@.take(bytes@.len() as int) =~= bytes@);
    }
}

/// Serialize one key-value operation to its wire form, without padding.
pub fn encode_op(op: &KeyValueOpt) -> (r: Vec<u8>)
    ensures
        r@ == spec_encode_msg(op@),
{
    let mut out: Vec<u8> = Vec::new();
    match op {
        KeyValueOpt::Get { key } => {
            out.push(TAG_GET);
            append_escaped(&mut out, key.as_str().as_bytes());
            proof {
                assert(out@ =~= spec_encode_msg(op@));
            }
        },
        KeyValueOpt::Put { key, value } => {
            out.push(TAG_PUT);
            append_escaped(&mut out, key.as_str().as_bytes());
            out.push(SEP);
            append_escaped(&mut out, value.as_str().as_bytes());
            proof {
                assert(out@ =~= spec_encode_msg(op@));
            }
        },
        KeyValueOpt::Delete { key } => {
            out.push(TAG_DELETE);
            append_escaped(&mut out, key.as_str().as_bytes());
            proof {
                assert(out@ =~= spec_encode_msg(op@));
            }
        },
    }
    out
}

/// Serialize a message to its wire form, without padding.
pub fn encode_message(m: &Message) -> (r: Vec<u8>)
    ensures
        r@ == spec_encode_msg(m@),
{
    match m {
        Message::Op(op) => encode_op(op),
        Message::Reply(value) => {
            let mut out: Vec<u8> = Vec::new();
            out.push(TAG_REPLY);
            append_escaped(&mut out, value.as_str().as_bytes());
            proof {
                assert(out@ =~= spec_encode_msg(m@));
            }
            out
        },
    }
}

/// Pad a serialized message with zeros to the buffer capacity. Content that
/// fits exactly is accepted; one byte over fails with `EncodingError` and
/// nothing is ever truncated.
pub fn pad_to(v: Vec<u8>, capacity: usize) -> (r: Result<Vec<u8>, RdmaError>)
    ensures
        r is Ok <==> v@.len() <= capacity,
        r matches Ok(p) ==> p@ == spec_pad(v@, capacity as nat) && p@.len() == capacity,
        r matches Err(e) ==> e == RdmaError::EncodingError,
{
    let mut v = v;
    if v.len() > capacity {
        return Err(RdmaError::EncodingError);
    }
    let ghost body = v@;
    while v.len() < capacity
        invariant
            body.len() <= capacity,
            body.len() <= v@.len() <= capacity,
            v@.take(body.len() as int) == body,
            forall|j: int| body.len() <= j < v@.len() ==> v@[j] == 0u8,
        decreases capacity - v@.len(),
    {
        v.push(0u8);
        proof {
            assert(v@.take(body.len() as int) =~= body);
        }
    }
    proof {
        assert(v@ =~= spec_pad(body, capacity as nat));
    }
    Ok(v)
}

/// Serialize a message and pad it with zeros to the buffer capacity.
/// A message exactly at capacity is accepted; one byte over fails with
/// `EncodingError`, never truncated.
pub fn encode_padded(m: &Message, capacity: usize) -> (r: Result<Vec<u8>, RdmaError>)
    ensures
        r is Ok <==> spec_encode_msg(m@).len() <= capacity,
        r matches Ok(v) ==> v@ == spec_pad(spec_encode_msg(m@), capacity as nat) && v@.len()
            == capacity,
        r matches Err(e) ==> e == RdmaError::EncodingError,
{
    let v = encode_message(m);
    pad_to(v, capacity)
}

/// Index of the first occurrence of `b`, or the length if there is none.
fn find_byte(bytes: &[u8], b: u8) -> (r: usize)
    ensures
        r as int == spec_find(bytes@, b),
{
    let mut i: usize = 0;
    while i < bytes.len()
        invariant
            i <= bytes@.len(),
            forall|j: int| 0 <= j < i ==> bytes@[j] != b,
        decreases bytes@.len() - i,
    {
        if bytes[i] == b {
            proof {
                lemma_spec_find_unique(bytes@, b, i as int);
            }
            return i;
        }
        i = i + 1;
    }
    proof {
        lemma_spec_find_unique(bytes@, b, bytes@.len() as int);
    }
    i
}

/// Undo [`escape`]; `None` on byte strings that no escape produces.
fn unescape_bytes(bytes: &[u8]) -> (r: Option<Vec<u8>>)
    ensures
        match r {
            Some(v) => unescape(bytes@) == Some(v@),
            None => unescape(bytes@) is None,
        },
{
    let mut out: Vec<u8> = Vec::new();
    let mut i: usize = 0;
    proof {
        assert(bytes@.skip(0) =~= bytes@);
        match unescape(bytes@) {
            Some(r) => {
                assert(Seq::<u8>::empty() + r =~= r);
            },
            None => {},
        }
    }
    while i < bytes.len()
        invariant
            i <= bytes@.len(),
            unescape(bytes@) == match unescape(bytes@.skip(i as int)) {
                Some(rest) => Some(out@ + rest),
                None => None::<Seq<u8>>,
            },
        decreases bytes@.len() - i,
    {
        let ghost rem = bytes@.skip(i as int);
        let ghost out_pre = out@;
        let b = bytes[i];
        proof {
            assert(rem[0] == b);
        }
        if b == ESC {
            if i + 1 < bytes.len() {
                let c = bytes[i + 1];
                proof {
                    assert(rem[1] == c);
                    assert(rem.skip(2) =~= bytes@.skip(i + 2));
                }
                if c == ESC_CODE_ZERO || c == ESC_CODE_ESC || c == ESC_CODE_SEP {
                    let d: u8 = if c == ESC_CODE_ZERO {
                        0u8
                    } else if c == ESC_CODE_ESC {
                        ESC
                    } else {
                        SEP
                    };
                    out.push(d);
                    proof {
                        assert(d == unesc_code(c));
                        match unescape(bytes@.skip(i + 2)) {
                            Some(r2) => {
                                assert(out_pre + (seq![d] + r2) =~= out@ + r2);
                            },
                            None => {},
                        }
                    }
                    i = i + 2;
                } else {
                    return None;
                }
            } else {
                proof {
                    assert(rem.len() == 1);
                }
                return None;
            }
        } else {
            out.push(b);
            proof {
                assert(rem.skip(1) =~= bytes@.skip(i + 1));
                match unescape(bytes@.skip(i + 1)) {
                    Some(r2) => {
                        assert(out_pre + (seq![b] + r2) =~= out@ + r2);
                    },
                    None => {},
                }
            }
            i = i + 1;
        }
    }
    proof {
        assert(bytes@.skip(bytes@.len() as int) =~= Seq::<u8>::empty());
        assert(out@ + Seq::<u8>::empty() =~= out@);
    }
    Some(out)
}

/// Decode one escaped field into a string.
fn decode_field(body: &[u8]) -> (r: Result<String, RdmaError>)
    ensures
        r matches Ok(s) ==> spec_decode_field(body@) == Some(s@),
        r is Err <==> spec_decode_field(body@) is None,
        r matches Err(e) ==> e == RdmaError::EncodingError,
{
    match unescape_bytes(body) {
        None => Err(RdmaError::EncodingError),
        Some(bs) => {
            match String::from_utf8(bs) {
                Ok(s) => {
                    proof {
                        encode_utf8_decode_utf8(s@);
                    }
                    Ok(s)
                },
                Err(_) => Err(RdmaError::EncodingError),
            }
        },
    }
}

/// Parse the padded content of the shared buffer back into a message.
/// Exactly the byte strings that [`spec_decode_msg`] accepts are accepted;
/// everything else is an `EncodingError`.
pub fn decode_message(bytes: &[u8]) -> (r: Result<Message, RdmaError>)
    ensures
        r matches Ok(m) ==> spec_decode_msg(bytes@) == Some(m@),
        r is Err <==> spec_decode_msg(bytes@) is None,
        r matches Err(e) ==> e == RdmaError::EncodingError,
{
    let z = find_byte(bytes, 0u8);
    proof {
        lemma_spec_find(bytes@, 0u8);
    }
    let t = slice_subrange(bytes, 0, z);
    proof {
        assert(t@ =~= spec_strip(bytes@));
    }
    if t.len() == 0 {
        return Err(RdmaError::EncodingError);
    }
    let tag = t[0];
    let body = slice_subrange(t, 1, t.len());
    proof {
        assert(body@ =~= spec_strip(bytes@).skip(1));
    }
    if tag == TAG_PUT {
        let sep = find_byte(body, SEP);
        proof {
            lemma_spec_find(body@, SEP);
        }
        if sep == body.len() {
            return Err(RdmaError::EncodingError);
        }
        let kb = slice_subrange(body, 0, sep);
        let vb = slice_subrange(body, sep + 1, body.len());
        proof {
            assert(kb@ =~= body@.take(spec_find(body@, SEP)));
            assert(vb@ =~= body@.skip(spec_find(body@, SEP) + 1));
        }
        let key = match decode_field(kb) {
            Ok(key) => key,
            Err(e) => {
                return Err(e);
            },
        };
        let value = match decode_field(vb) {
            Ok(value) => value,
            Err(e) => {
                return Err(e);
            },
        };
        Ok(Message::Op(KeyValueOpt::Put { key, value }))
    } else if tag == TAG_GET {
        let key = match decode_field(body) {
            Ok(key) => key,
            Err(e) => {
                return Err(e);
            },
        };
        Ok(Message::Op(KeyValueOpt::Get { key }))
    } else if tag == TAG_DELETE {
        let key = match decode_field(body) {
            Ok(key) => key,
            Err(e) => {
                return Err(e);
            },
        };
        Ok(Message::Op(KeyValueOpt::Delete { key }))
    } else if tag == TAG_REPLY {
        let value = match decode_field(body) {
            Ok(value) => value,
            Err(e) => {
                return Err(e);
            },
        };
        Ok(Message::Reply(value))
    } else {
        Err(RdmaError::EncodingError)
    }
}

/// No byte of an encoded message is zero, so zero padding never hides or
/// extends a message.
pub proof fn lemma_encode_msg_no_zero(v: MessageView)
    ensures
        forall|i: int|
            0 <= i < spec_encode_msg(v).len() ==> #[trigger] spec_encode_msg(v)[i] != 0u8,
{
    match v {
        MessageView::Get { key } => {
            lemma_escape_no_special(encode_utf8(key));
        },
        MessageView::Put { key, value } => {
            lemma_escape_no_special(encode_utf8(key));
            lemma_escape_no_special(encode_utf8(value));
        },
        MessageView::Delete { key } => {
            lemma_escape_no_special(encode_utf8(key));
        },
        MessageView::Reply { value } => {
            lemma_escape_no_special(encode_utf8(value));
        },
    }
}

/// Stripping a zero-free byte string padded to any capacity returns exactly
/// that byte string.
pub proof fn lemma_strip_pad(s: Seq<u8>, cap: nat)
    requires
        s.len() <= cap,
        forall|i: int| 0 <= i < s.len() ==> #[trigger] s[i] != 0u8,
    ensures
        spec_strip(spec_pad(s, cap)) == s,
{
    let p = spec_pad(s, cap);
    assert(forall|i: int| 0 <= i < s.len() ==> p[i] == s[i]);
    assert(s.len() < p.len() ==> p[s.len() as int] == 0u8);
    lemma_spec_find_unique(p, 0u8, s.len() as int);
    assert(p.take(s.len() as int) =~= s);
}

/// Stripping is idempotent, so stripping the padding before decoding is a
/// no-op on the result.
pub proof fn lemma_strip_before_decode_noop(s: Seq<u8>)
    ensures
        spec_decode_msg(spec_strip(s)) == spec_decode_msg(s),
{
    let t = spec_strip(s);
    lemma_spec_find(s, 0u8);
    assert(forall|i: int| 0 <= i < t.len() ==> #[trigger] t[i] != 0u8);
    lemma_spec_find_unique(t, 0u8, t.len() as int);
    assert(spec_strip(t) =~= t);
}

/// Encode/decode round trip: every message decodes back from its own wire
/// form, for every operation variant and for replies.
pub proof fn lemma_message_round_trip(v: MessageView)
    ensures
        spec_decode_msg(spec_encode_msg(v)) == Some(v),
{
    let e = spec_encode_msg(v);
    lemma_encode_msg_no_zero(v);
    lemma_spec_find_unique(e, 0u8, e.len() as int);
    assert(spec_strip(e) =~= e);
    match v {
        MessageView::Get { key } => {
            lemma_decode_single_field(TAG_GET, key, e);
        },
        MessageView::Delete { key } => {
            lemma_decode_single_field(TAG_DELETE, key, e);
        },
        MessageView::Reply { value } => {
            lemma_decode_single_field(TAG_REPLY, value, e);
        },
        MessageView::Put { key, value } => {
            let kb = escape(encode_utf8(key));
            let vb = escape(encode_utf8(value));
            let body = e.skip(1);
            assert(body =~= kb + seq![SEP] + vb);
            lemma_escape_no_special(encode_utf8(key));
            assert(forall|i: int| 0 <= i < kb.len() ==> #[trigger] body[i] != SEP);
            assert(body[kb.len() as int] == SEP);
            lemma_spec_find_unique(body, SEP, kb.len() as int);
            assert(body.take(kb.len() as int) =~= kb);
            assert(body.skip(kb.len() as int + 1) =~= vb);
            lemma_field_round_trip(key);
            lemma_field_round_trip(value);
        },
    }
}

/// A single escaped field decodes back to its own characters.
proof fn lemma_field_round_trip(field: Seq<char>)
    ensures
        spec_decode_field(escape(encode_utf8(field))) == Some(field),
{
    lemma_unescape_escape(encode_utf8(field));
    encode_utf8_valid_utf8(field);
    encode_utf8_decode_utf8(field);
}

proof fn lemma_decode_single_field(tag: u8, field: Seq<char>, e: Seq<u8>)
    requires
        tag != TAG_PUT,
        e == seq![tag] + escape(encode_utf8(field)),
    ensures
        e.skip(1) == escape(encode_utf8(field)),
        spec_decode_field(e.skip(1)) == Some(field),
{
    assert(e.skip(1) =~= escape(encode_utf8(field)));
    lemma_field_round_trip(field);
}

/// Padded round trip: a message that fits decodes back from the padded
/// buffer unchanged, whatever the capacity.
pub proof fn lemma_padded_round_trip(v: MessageView, cap: nat)
    requires
        spec_encode_msg(v).len() <= cap,
    ensures
        spec_decode_msg(spec_pad(spec_encode_msg(v), cap)) == Some(v),
{
    let e = spec_encode_msg(v);
    lemma_encode_msg_no_zero(v);
    lemma_strip_pad(e, cap);
    lemma_strip_before_decode_noop(spec_pad(e, cap));
    assert(spec_strip(spec_pad(e, cap)) == e);
    lemma_message_round_trip(v);
    lemma_spec_find_unique(e, 0u8, e.len() as int);
    assert(spec_strip(e) =~= e);
}

} // verus!
