//! A minimal OSC 1.0 decoder — enough for what CasparCG actually emits.
//!
//! The server sends one UDP packet per frame containing a `#bundle` of
//! messages, each addressed like `/channel/1/stage/layer/10/file/frame` with a
//! single argument. There is no need for pattern matching, timetag scheduling
//! or any of OSC's dispatch machinery here: this is a sink, not a target.
//!
//! Floating-point arguments are carried as their IEEE 754 bit patterns, exactly
//! as they arrive on the wire; turning them into numbers is left to whoever
//! displays them.

use vstd::prelude::*;

use crate::text::{chars_of, decode_lossy, wire_text};

verus! {

broadcast use vstd::string::group_string_axioms;

/// An OSC argument.
#[derive(Debug, Clone, PartialEq)]
pub enum Value {
    Int(i32),
    Long(i64),
    /// A 32-bit float, as its IEEE 754 bits.
    Float(u32),
    /// A 64-bit float, as its IEEE 754 bits.
    Double(u64),
    String(String),
    Blob(Vec<u8>),
    Bool(bool),
    Null,
    Impulse,
}

/// The abstract content of a [`Value`].
pub enum ValueView {
    Int(i32),
    Long(i64),
    Float(u32),
    Double(u64),
    String(Seq<char>),
    Blob(Seq<u8>),
    Bool(bool),
    Null,
    Impulse,
}

impl View for Value {
    type V = ValueView;

    open spec fn view(&self) -> ValueView {
        match self {
            Value::Int(i) => ValueView::Int(*i),
            Value::Long(i) => ValueView::Long(*i),
            Value::Float(b) => ValueView::Float(*b),
            Value::Double(b) => ValueView::Double(*b),
            Value::String(s) => ValueView::String(s@),
            Value::Blob(b) => ValueView::Blob(b@),
            Value::Bool(b) => ValueView::Bool(*b),
            Value::Null => ValueView::Null,
            Value::Impulse => ValueView::Impulse,
        }
    }
}

/// One decoded message.
#[derive(Debug, Clone, PartialEq)]
pub struct Message {
    pub address: String,
    pub args: Vec<Value>,
}

/// The abstract content of a [`Message`].
pub struct MessageView {
    pub address: Seq<char>,
    pub args: Seq<ValueView>,
}

impl View for Message {
    type V = MessageView;

    open spec fn view(&self) -> MessageView {
        MessageView { address: self.address@, args: self.args@.map_values(|v: Value| v@) }
    }
}

/// The views of a list of messages.
pub open spec fn message_views(v: Seq<Message>) -> Seq<MessageView> {
    v.map_values(|m: Message| m@)
}

/// Why a packet could not be read.
#[derive(Debug, Clone, Copy, PartialEq, Eq, Structural)]
pub enum Error {
    /// The packet ended mid-value.
    Truncated,
    /// A string was not null-terminated.
    Unterminated,
    /// An unknown OSC type tag.
    UnknownTag(char),
    /// The address did not start with `/`.
    BadAddress,
}

/// The `n` bytes at `pos`, and the position after them.
pub open spec fn take(buf: Seq<u8>, pos: int, n: int) -> Result<(Seq<u8>, int), Error> {
    if 0 <= pos && 0 <= n && pos + n <= buf.len() {
        Ok((buf.subrange(pos, pos + n), pos + n))
    } else {
        Err(Error::Truncated)
    }
}

/// Four bytes read as a big-endian unsigned number.
pub open spec fn be_u32(b: Seq<u8>) -> int {
    b[0] * 0x100_0000 + b[1] * 0x1_0000 + b[2] * 0x100 + b[3]
}

/// Eight bytes read as a big-endian unsigned number.
pub open spec fn be_u64(b: Seq<u8>) -> int {
    be_u32(b) * 0x1_0000_0000 + be_u32(b.skip(4))
}

/// A 32-bit word read as a two's-complement integer.
pub open spec fn as_i32(v: int) -> i32 {
    (if v >= 0x8000_0000 {
        v - 0x1_0000_0000
    } else {
        v
    }) as i32
}

/// A 64-bit word read as a two's-complement integer.
pub open spec fn as_i64(v: int) -> i64 {
    (if v >= 0x8000_0000_0000_0000 {
        v - 0x1_0000_0000_0000_0000
    } else {
        v
    }) as i64
}

/// The 32-bit word at `pos`.
pub open spec fn read_u32(buf: Seq<u8>, pos: int) -> Result<(int, int), Error> {
    match take(buf, pos, 4) {
        Ok(t) => Ok((be_u32(t.0), t.1)),
        Err(e) => Err(e),
    }
}

/// The 64-bit word at `pos`.
pub open spec fn read_u64(buf: Seq<u8>, pos: int) -> Result<(int, int), Error> {
    match take(buf, pos, 8) {
        Ok(t) => Ok((be_u64(t.0), t.1)),
        Err(e) => Err(e),
    }
}

/// `i` is the position of the first null byte in `s`.
pub open spec fn nul_at(s: Seq<u8>, i: int) -> bool {
    0 <= i < s.len() && s[i] == 0 && forall|j: int| 0 <= j < i ==> s[j] != 0
}

/// `n` rounded up to a multiple of four.
pub open spec fn round4(n: int) -> int {
    (n + 3) / 4 * 4
}

/// A null-terminated string at `pos`, padded to the next 4-byte boundary,
/// and the position after the padding (never past the end of the packet).
pub open spec fn read_string(buf: Seq<u8>, pos: int) -> Result<(Seq<char>, int), Error> {
    if pos < 0 || pos > buf.len() {
        Err(Error::Truncated)
    } else {
        let rest = buf.skip(pos);
        if exists|i: int| nul_at(rest, i) {
            let i = choose|i: int| nul_at(rest, i);
            let consumed = if round4(i + 1) < rest.len() {
                round4(i + 1)
            } else {
                rest.len() as int
            };
            Ok((wire_text(rest.take(i)), pos + consumed))
        } else {
            Err(Error::Unterminated)
        }
    }
}

/// The padding that follows a blob of `len` bytes.
pub open spec fn pad_of(len: int) -> int {
    (4 - (len % 4)) % 4
}

/// One argument of type `tag` at `pos`, and the position after it.
pub open spec fn decode_arg(buf: Seq<u8>, pos: int, tag: char) -> Result<(ValueView, int), Error> {
    if tag == 'i' {
        match read_u32(buf, pos) {
            Ok(t) => Ok((ValueView::Int(as_i32(t.0)), t.1)),
            Err(e) => Err(e),
        }
    } else if tag == 'h' {
        match read_u64(buf, pos) {
            Ok(t) => Ok((ValueView::Long(as_i64(t.0)), t.1)),
            Err(e) => Err(e),
        }
    } else if tag == 'f' {
        match read_u32(buf, pos) {
            Ok(t) => Ok((ValueView::Float(t.0 as u32), t.1)),
            Err(e) => Err(e),
        }
    } else if tag == 'd' {
        match read_u64(buf, pos) {
            Ok(t) => Ok((ValueView::Double(t.0 as u64), t.1)),
            Err(e) => Err(e),
        }
    } else if tag == 's' || tag == 'S' {
        match read_string(buf, pos) {
            Ok(t) => Ok((ValueView::String(t.0), t.1)),
            Err(e) => Err(e),
        }
    } else if tag == 'b' {
        match read_u32(buf, pos) {
            Err(e) => Err(e),
            Ok(t) => {
                let len = as_i32(t.0) as int;
                match take(buf, t.1, len) {
                    Err(e) => Err(e),
                    Ok(d) => if pad_of(len) > 0 {
                        match take(buf, d.1, pad_of(len)) {
                            Err(e) => Err(e),
                            Ok(p) => Ok((ValueView::Blob(d.0), p.1)),
                        }
                    } else {
                        Ok((ValueView::Blob(d.0), d.1))
                    },
                }
            },
        }
    } else if tag == 'T' {
        Ok((ValueView::Bool(true), pos))
    } else if tag == 'F' {
        Ok((ValueView::Bool(false), pos))
    } else if tag == 'N' {
        Ok((ValueView::Null, pos))
    } else if tag == 'I' {
        Ok((ValueView::Impulse, pos))
    } else {
        Err(Error::UnknownTag(tag))
    }
}

/// The arguments described by `tags`, read from `pos` on.
pub open spec fn decode_args(buf: Seq<u8>, pos: int, tags: Seq<char>) -> Result<
    Seq<ValueView>,
    Error,
>
    decreases tags.len(),
{
    if tags.len() == 0 {
        Ok(Seq::empty())
    } else {
        match decode_arg(buf, pos, tags[0]) {
            Err(e) => Err(e),
            Ok(t) => match decode_args(buf, t.1, tags.drop_first()) {
                Err(e) => Err(e),
                Ok(rest) => Ok(seq![t.0] + rest),
            },
        }
    }
}

/// One message: its address, then its type-tag string (a message with none
/// is legal in OSC 1.0 and means no arguments), then the arguments.
pub open spec fn decode_message(bytes: Seq<u8>) -> Result<MessageView, Error> {
    match read_string(bytes, 0) {
        Err(e) => Err(e),
        Ok(a) => if !(a.0.len() > 0 && a.0[0] == '/') {
            Err(Error::BadAddress)
        } else {
            let tags: Result<(Seq<char>, int), Error> = if a.1 >= bytes.len() {
                Ok((Seq::empty(), a.1))
            } else {
                read_string(bytes, a.1)
            };
            match tags {
                Err(e) => Err(e),
                Ok(t) => {
                    let tag_chars = if t.0.len() > 0 && t.0[0] == ',' {
                        t.0.drop_first()
                    } else {
                        t.0
                    };
                    match decode_args(bytes, t.1, tag_chars) {
                        Err(e) => Err(e),
                        Ok(args) => Ok(MessageView { address: a.0, args }),
                    }
                },
            }
        },
    }
}

/// The 8 bytes that open a bundle.
pub open spec fn bundle_tag() -> Seq<u8> {
    seq![35u8, 98u8, 117u8, 110u8, 100u8, 108u8, 101u8, 0u8]
}

/// `bytes` opens with `#bundle\0`.
pub open spec fn is_bundle(bytes: Seq<u8>) -> bool {
    bytes.len() >= 8 && bytes.take(8) == bundle_tag()
}

/// Every message in a packet, nested bundles flattened in order.
///
/// A bundle is `#bundle\0`, an 8-byte timetag (ignored), then elements each
/// prefixed by a 32-bit length. A bundle too short to hold its timetag is a
/// truncated packet.
pub open spec fn decode_all(bytes: Seq<u8>) -> Result<Seq<MessageView>, Error>
    decreases bytes.len(), 1int,
{
    if is_bundle(bytes) {
        if bytes.len() < 16 {
            Err(Error::Truncated)
        } else {
            decode_elements(bytes.skip(16))
        }
    } else {
        match decode_message(bytes) {
            Err(e) => Err(e),
            Ok(m) => Ok(seq![m]),
        }
    }
}

/// The elements of a bundle body, each a length-prefixed packet.
pub open spec fn decode_elements(s: Seq<u8>) -> Result<Seq<MessageView>, Error>
    decreases s.len(), 0int,
{
    if s.len() == 0 {
        Ok(Seq::empty())
    } else {
        match read_u32(s, 0) {
            Err(e) => Err(e),
            Ok(t) => {
                let len = as_i32(t.0) as int;
                if len < 0 || 4 + len > s.len() {
                    Err(Error::Truncated)
                } else {
                    match decode_all(s.subrange(4, 4 + len)) {
                        Err(e) => Err(e),
                        Ok(first) => match decode_elements(s.skip(4 + len)) {
                            Err(e) => Err(e),
                            Ok(rest) => Ok(first + rest),
                        },
                    }
                }
            },
        }
    }
}

fn read_word(buf: &[u8], pos: usize) -> (r: Result<(u32, usize), Error>)
    ensures
        match r {
            Ok(t) => read_u32(buf@, pos as int) == Ok::<(int, int), Error>((t.0 as int, t.1 as int)),
            Err(e) => read_u32(buf@, pos as int) == Err::<(int, int), Error>(e),
        },
{
    if pos > buf.len() || buf.len() - pos < 4 {
        return Err(Error::Truncated);
    }
    let v: u32 = (buf[pos] as u32) * 0x100_0000 + (buf[pos + 1] as u32) * 0x1_0000 + (buf[pos + 2]
        as u32) * 0x100 + (buf[pos + 3] as u32);
    assert(buf@.subrange(pos as int, pos + 4)[0] == buf@[pos as int]);
    assert(buf@.subrange(pos as int, pos + 4)[1] == buf@[pos + 1]);
    assert(buf@.subrange(pos as int, pos + 4)[2] == buf@[pos + 2]);
    assert(buf@.subrange(pos as int, pos + 4)[3] == buf@[pos + 3]);
    Ok((v, pos + 4))
}

fn read_dword(buf: &[u8], pos: usize) -> (r: Result<(u64, usize), Error>)
    ensures
        match r {
            Ok(t) => read_u64(buf@, pos as int) == Ok::<(int, int), Error>((t.0 as int, t.1 as int)),
            Err(e) => read_u64(buf@, pos as int) == Err::<(int, int), Error>(e),
        },
{
    if pos > buf.len() || buf.len() - pos < 8 {
        return Err(Error::Truncated);
    }
    let hi: u64 = (buf[pos] as u64) * 0x100_0000 + (buf[pos + 1] as u64) * 0x1_0000 + (buf[pos + 2]
        as u64) * 0x100 + (buf[pos + 3] as u64);
    let lo: u64 = (buf[pos + 4] as u64) * 0x100_0000 + (buf[pos + 5] as u64) * 0x1_0000 + (buf[pos
        + 6] as u64) * 0x100 + (buf[pos + 7] as u64);
    let v: u64 = hi * 0x1_0000_0000 + lo;
    let ghost b = buf@.subrange(pos as int, pos + 8);
    assert(b[0] == buf@[pos as int]);
    assert(b[1] == buf@[pos + 1]);
    assert(b[2] == buf@[pos + 2]);
    assert(b[3] == buf@[pos + 3]);
    assert(b.skip(4)[0] == buf@[pos + 4]);
    assert(b.skip(4)[1] == buf@[pos + 5]);
    assert(b.skip(4)[2] == buf@[pos + 6]);
    assert(b.skip(4)[3] == buf@[pos + 7]);
    Ok((v, pos + 8))
}

fn to_i32(v: u32) -> (r: i32)
    ensures
        r == as_i32(v as int),
{
    if v >= 0x8000_0000 {
        ((v - 0x8000_0000) as i32) + i32::MIN
    } else {
        v as i32
    }
}

fn to_i64(v: u64) -> (r: i64)
    ensures
        r == as_i64(v as int),
{
    if v >= 0x8000_0000_0000_0000 {
        ((v - 0x8000_0000_0000_0000) as i64) + i64::MIN
    } else {
        v as i64
    }
}

fn take_exec<'a>(buf: &'a [u8], pos: usize, n: usize) -> (r: Result<(&'a [u8], usize), Error>)
    ensures
        match r {
            Ok(t) => take(buf@, pos as int, n as int) == Ok::<(Seq<u8>, int), Error>((t.0@, t.1 as int)),
            Err(e) => take(buf@, pos as int, n as int) == Err::<(Seq<u8>, int), Error>(e),
        },
{
    if pos > buf.len() || buf.len() - pos < n {
        return Err(Error::Truncated);
    }
    Ok((vstd::slice::slice_subrange(buf, pos, pos + n), pos + n))
}

fn read_string_exec(buf: &[u8], pos: usize) -> (r: Result<(String, usize), Error>)
    ensures
        match r {
            Ok(t) => read_string(buf@, pos as int) == Ok::<(Seq<char>, int), Error>((t.0@, t.1 as int)),
            Err(e) => read_string(buf@, pos as int) == Err::<(Seq<char>, int), Error>(e),
        },
{
    if pos > buf.len() {
        return Err(Error::Truncated);
    }
    let ghost rest = buf@.skip(pos as int);
    let mut j: usize = pos;
    while j < buf.len() && buf[j] != 0
        invariant
            pos <= j <= buf@.len(),
            forall|k: int| pos <= k < j ==> buf@[k] != 0,
        decreases buf@.len() - j,
    {
        j = j + 1;
    }
    if j == buf.len() {
        proof {
            assert forall|i: int| !nul_at(rest, i) by {
                if nul_at(rest, i) {
                    assert(buf@[pos + i] == 0);
                }
            }
        }
        return Err(Error::Unterminated);
    }
    let nul: usize = j - pos;
    proof {
        assert(nul_at(rest, nul as int)) by {
            assert forall|k: int| 0 <= k < nul implies rest[k] != 0 by {
                assert(rest[k] == buf@[pos + k]);
            }
        }
        assert forall|i: int| nul_at(rest, i) implies i == nul by {
            if i < nul {
                assert(rest[i] != 0);
            }
            if nul < i {
                assert(rest[nul as int] != 0);
            }
        }
        assert(rest.take(nul as int) =~= buf@.subrange(pos as int, j as int));
    }
    let s = decode_lossy(vstd::slice::slice_subrange(buf, pos, j));
    let rest_len: usize = buf.len() - pos;
    let used: usize = nul + 1;
    let r: usize = used % 4;
    let consumed: usize = if r == 0 {
        used
    } else if rest_len - used >= 4 - r {
        used + (4 - r)
    } else {
        rest_len
    };
    assert(round4(used as int) == if r == 0 { used as int } else { used + (4 - r) });
    Ok((s, pos + consumed))
}

fn decode_arg_exec(buf: &[u8], pos: usize, tag: char) -> (r: Result<(Value, usize), Error>)
    ensures
        match r {
            Ok(t) => decode_arg(buf@, pos as int, tag) == Ok::<(ValueView, int), Error>((t.0@, t.1 as int)),
            Err(e) => decode_arg(buf@, pos as int, tag) == Err::<(ValueView, int), Error>(e),
        },
{
    if tag == 'i' {
        let (v, p) = read_word(buf, pos)?;
        Ok((Value::Int(to_i32(v)), p))
    } else if tag == 'h' {
        let (v, p) = read_dword(buf, pos)?;
        Ok((Value::Long(to_i64(v)), p))
    } else if tag == 'f' {
        let (v, p) = read_word(buf, pos)?;
        Ok((Value::Float(v), p))
    } else if tag == 'd' {
        let (v, p) = read_dword(buf, pos)?;
        Ok((Value::Double(v), p))
    } else if tag == 's' || tag == 'S' {
        let (s, p) = read_string_exec(buf, pos)?;
        Ok((Value::String(s), p))
    } else if tag == 'b' {
        let (v, p) = read_word(buf, pos)?;
        let len = to_i32(v);
        if len < 0 {
            return Err(Error::Truncated);
        }
        let n = len as usize;
        let (data, p2) = take_exec(buf, p, n)?;
        let pad: usize = (4 - (n % 4)) % 4;
        let blob = Value::Blob(vstd::slice::slice_to_vec(data));
        if pad > 0 {
            let (_, p3) = take_exec(buf, p2, pad)?;
            Ok((blob, p3))
        } else {
            Ok((blob, p2))
        }
    } else if tag == 'T' {
        Ok((Value::Bool(true), pos))
    } else if tag == 'F' {
        Ok((Value::Bool(false), pos))
    } else if tag == 'N' {
        Ok((Value::Null, pos))
    } else if tag == 'I' {
        Ok((Value::Impulse, pos))
    } else {
        Err(Error::UnknownTag(tag))
    }
}

fn decode_message_exec(bytes: &[u8]) -> (r: Result<Message, Error>)
    ensures
        match r {
            Ok(m) => decode_message(bytes@) == Ok::<MessageView, Error>(m@),
            Err(e) => decode_message(bytes@) == Err::<MessageView, Error>(e),
        },
{
    let (address, p1) = read_string_exec(bytes, 0)?;
    let addr = chars_of(address.as_str());
    if !(addr.len() > 0 && addr[0] == '/') {
        return Err(Error::BadAddress);
    }
    let (tags, p2) = if p1 >= bytes.len() {
        (String::new(), p1)
    } else {
        read_string_exec(bytes, p1)?
    };
    let tv = chars_of(tags.as_str());
    let start: usize = if tv.len() > 0 && tv[0] == ',' {
        1
    } else {
        0
    };
    let ghost tag_chars = tv@.skip(start as int);
    assert(tag_chars == if tv@.len() > 0 && tv@[0] == ',' {
        tv@.drop_first()
    } else {
        tv@
    });
    assert(decode_message(bytes@) == match decode_args(bytes@, p2 as int, tag_chars) {
        Err(e) => Err(e),
        Ok(args) => Ok(MessageView { address: address@, args }),
    });
    let mut args: Vec<Value> = Vec::new();
    let mut pos = p2;
    let mut i = start;
    while i < tv.len()
        invariant
            start <= i <= tv@.len(),
            tag_chars == tv@.skip(start as int),
            decode_message(bytes@) == match decode_args(bytes@, p2 as int, tag_chars) {
                Err(e) => Err(e),
                Ok(args) => Ok(MessageView { address: address@, args }),
            },
            decode_args(bytes@, p2 as int, tag_chars) == match decode_args(
                bytes@,
                pos as int,
                tv@.skip(i as int),
            ) {
                Ok(rest) => Ok(args@.map_values(|v: Value| v@) + rest),
                Err(e) => Err(e),
            },
        decreases tv@.len() - i,
    {
        let ghost tail = tv@.skip(i as int);
        assert(tail[0] == tv@[i as int]);
        assert(tail.drop_first() == tv@.skip(i + 1));
        let res = decode_arg_exec(bytes, pos, tv[i]);
        let (v, p) = match res {
            Ok(t) => t,
            Err(e) => {
                assert(decode_args(bytes@, pos as int, tail) == Err::<Seq<ValueView>, Error>(e));
                return Err(e);
            },
        };
        let ghost before = args@.map_values(|v: Value| v@);
        args.push(v);
        proof {
            assert(args@.map_values(|v: Value| v@) == before.push(v@));
            match decode_args(bytes@, p as int, tv@.skip(i + 1)) {
                Ok(rest) => {
                    assert(before + (seq![v@] + rest) == before.push(v@) + rest);
                },
                Err(e) => {},
            }
        }
        pos = p;
        i = i + 1;
    }
    proof {
        assert(tv@.skip(tv@.len() as int) == Seq::<char>::empty());
        assert(args@.map_values(|v: Value| v@) + Seq::<ValueView>::empty() == args@.map_values(
            |v: Value| v@,
        ));
    }
    Ok(Message { address, args })
}

fn starts_bundle(bytes: &[u8]) -> (r: bool)
    ensures
        r == is_bundle(bytes@),
{
    let r = bytes.len() >= 8 && bytes[0] == 35 && bytes[1] == 98 && bytes[2] == 117 && bytes[3]
        == 110 && bytes[4] == 100 && bytes[5] == 108 && bytes[6] == 101 && bytes[7] == 0;
    proof {
        if bytes@.len() >= 8 {
            let t = bytes@.take(8);
            assert(t[0] == bytes@[0] && t[1] == bytes@[1] && t[2] == bytes@[2] && t[3] == bytes@[3]);
            assert(t[4] == bytes@[4] && t[5] == bytes@[5] && t[6] == bytes@[6] && t[7] == bytes@[7]);
            if r {
                assert(t =~= bundle_tag());
            }
        }
    }
    r
}

#[verifier::rlimit(60)]
fn decode_into(bytes: &[u8], out: &mut Vec<Message>) -> (r: Result<(), Error>)
    ensures
        match decode_all(bytes@) {
            Ok(ms) => r is Ok && message_views(final(out)@) == message_views(old(out)@) + ms,
            Err(e) => r == Err::<(), Error>(e),
        },
    decreases bytes@.len(),
{
    if starts_bundle(bytes) {
        if bytes.len() < 16 {
            return Err(Error::Truncated);
        }
        let body = vstd::slice::slice_subrange(bytes, 16, bytes.len());
        assert(body@ == bytes@.skip(16));
        let ghost base = message_views(out@);
        let mut pos: usize = 0;
        assert(body@.skip(0) == body@);
        assert(base + Seq::<MessageView>::empty() == base);
        while pos < body.len()
            invariant
                pos <= body@.len(),
                body@.len() < bytes@.len(),
                decode_all(bytes@) == decode_elements(body@),
                decode_elements(body@) == match decode_elements(body@.skip(pos as int)) {
                    Ok(rest) => Ok(message_views(out@).skip(base.len() as int) + rest),
                    Err(e) => Err(e),
                },
                message_views(out@).len() >= base.len(),
                message_views(out@).take(base.len() as int) == base,
            decreases body@.len() - pos,
        {
            let ghost s = body@.skip(pos as int);
            let ghost added = message_views(out@).skip(base.len() as int);
            proof {
                assert(s.len() == body@.len() - pos);
                if pos + 4 <= body@.len() {
                    assert(s.subrange(0, 4) =~= body@.subrange(pos as int, pos + 4));
                }
            }
            let (w, p) = match read_word(body, pos) {
                Ok(t) => t,
                Err(e) => {
                    assert(read_u32(s, 0) == Err::<(int, int), Error>(Error::Truncated));
                    return Err(e);
                },
            };
            assert(read_u32(s, 0) == Ok::<(int, int), Error>((w as int, 4)));
            let len = to_i32(w);
            if len < 0 || body.len() - p < len as usize {
                return Err(Error::Truncated);
            }
            let n = len as usize;
            let element = vstd::slice::slice_subrange(body, p, p + n);
            assert(element@ =~= s.subrange(4, 4 + n));
            let ghost before_out = message_views(out@);
            decode_into(element, out)?;
            proof {
                assert(s.skip(4 + n) =~= body@.skip(p + n));
                let ms = decode_all(element@)->Ok_0;
                assert(message_views(out@) == before_out + ms);
                assert(message_views(out@).take(base.len() as int) =~= base);
                assert(message_views(out@).skip(base.len() as int) =~= added + ms);
                match decode_elements(body@.skip(p + n)) {
                    Ok(rest) => {
                        assert(added + (ms + rest) == (added + ms) + rest);
                    },
                    Err(e) => {},
                }
            }
            pos = p + n;
        }
        proof {
            assert(body@.skip(pos as int) == Seq::<u8>::empty());
            let added = message_views(out@).skip(base.len() as int);
            assert(added + Seq::<MessageView>::empty() == added);
            assert(message_views(out@) =~= base + added);
        }
        Ok(())
    } else {
        let m = decode_message_exec(bytes)?;
        let ghost before = message_views(out@);
        out.push(m);
        assert(message_views(out@) =~= before + seq![m@]);
        Ok(())
    }
}

/// Decode a UDP packet into its messages, flattening any nested bundles.
///
/// Timetags are ignored: CasparCG stamps bundles with the immediate tag, and a
/// telemetry mirror wants the newest value regardless.
pub fn decode_packet(bytes: &[u8]) -> (r: Result<Vec<Message>, Error>)
    ensures
        match r {
            Ok(v) => decode_all(bytes@) == Ok::<Seq<MessageView>, Error>(message_views(v@)),
            Err(e) => decode_all(bytes@) == Err::<Seq<MessageView>, Error>(e),
        },
{
    let mut out: Vec<Message> = Vec::new();
    decode_into(bytes, &mut out)?;
    assert(message_views(Seq::<Message>::empty()) + decode_all(bytes@)->Ok_0 =~= decode_all(
        bytes@,
    )->Ok_0);
    Ok(out)
}


/// The four bytes at `pos`, read big-endian as an unsigned number.
pub open spec fn word_at(buf: Seq<u8>, pos: int) -> int {
    buf[pos] * 0x100_0000 + buf[pos + 1] * 0x1_0000 + buf[pos + 2] * 0x100 + buf[pos + 3]
}

/// The eight bytes at `pos`, read big-endian as an unsigned number.
pub open spec fn dword_at(buf: Seq<u8>, pos: int) -> int {
    word_at(buf, pos) * 0x1_0000_0000 + word_at(buf, pos + 4)
}

/// Fixed-width arguments are read big-endian from the four or eight bytes at
/// their position. An `i` (or `h`) is the two's-complement reading of those
/// bytes: it agrees with the unsigned reading modulo 2³² (or 2⁶⁴), and it is
/// negative exactly when the top bit of the first byte is set. An `f` (or
/// `d`) keeps the bits exactly as they are. Too few bytes left is a
/// truncated packet.
pub proof fn lemma_fixed_width_arguments(buf: Seq<u8>, pos: int)
    requires
        0 <= pos,
    ensures
        pos + 4 <= buf.len() ==> (decode_arg(buf, pos, 'i') matches Ok((ValueView::Int(v), next))
            && next == pos + 4 && ((v as int) - word_at(buf, pos)) % 0x1_0000_0000 == 0 && (v < 0
            <==> buf[pos] >= 0x80)),
        pos + 4 <= buf.len() ==> (decode_arg(buf, pos, 'f') matches Ok((ValueView::Float(b), next))
            && next == pos + 4 && b == word_at(buf, pos)),
        pos + 8 <= buf.len() ==> (decode_arg(buf, pos, 'h') matches Ok((ValueView::Long(v), next))
            && next == pos + 8 && ((v as int) - dword_at(buf, pos)) % 0x1_0000_0000_0000_0000
            == 0 && (v < 0 <==> buf[pos] >= 0x80)),
        pos + 8 <= buf.len() ==> (decode_arg(buf, pos, 'd') matches Ok((ValueView::Double(b), next))
            && next == pos + 8 && b == dword_at(buf, pos)),
        pos + 4 > buf.len() ==> decode_arg(buf, pos, 'i') == Err::<(ValueView, int), Error>(
            Error::Truncated,
        ) && decode_arg(buf, pos, 'f') == Err::<(ValueView, int), Error>(Error::Truncated),
        pos + 8 > buf.len() ==> decode_arg(buf, pos, 'h') == Err::<(ValueView, int), Error>(
            Error::Truncated,
        ) && decode_arg(buf, pos, 'd') == Err::<(ValueView, int), Error>(Error::Truncated),
{
    if pos + 4 <= buf.len() {
        let b = buf.subrange(pos, pos + 4);
        assert(b[0] == buf[pos] && b[1] == buf[pos + 1] && b[2] == buf[pos + 2] && b[3] == buf[pos
            + 3]);
        let w = be_u32(b);
        assert(w == word_at(buf, pos));
        assert(0 <= w < 0x1_0000_0000);
        assert(w >= 0x8000_0000 <==> buf[pos] >= 0x80);
        let v = as_i32(w);
        if w >= 0x8000_0000 {
            assert(v as int == w - 0x1_0000_0000);
        } else {
            assert(v as int == w);
        }
    }
    if pos + 8 <= buf.len() {
        let b = buf.subrange(pos, pos + 8);
        assert(b[0] == buf[pos] && b[1] == buf[pos + 1] && b[2] == buf[pos + 2] && b[3] == buf[pos
            + 3]);
        let b4 = b.skip(4);
        assert(b4[0] == buf[pos + 4] && b4[1] == buf[pos + 5] && b4[2] == buf[pos + 6] && b4[3]
            == buf[pos + 7]);
        assert(be_u32(b) == word_at(buf, pos));
        assert(be_u32(b4) == word_at(buf, pos + 4));
        let w = be_u64(b);
        assert(w == dword_at(buf, pos));
        assert(0 <= word_at(buf, pos + 4) < 0x1_0000_0000);
        assert(0 <= w < 0x1_0000_0000_0000_0000);
        assert(w >= 0x8000_0000_0000_0000 <==> buf[pos] >= 0x80);
        let v = as_i64(w);
        if w >= 0x8000_0000_0000_0000 {
            assert(v as int == w - 0x1_0000_0000_0000_0000);
        } else {
            assert(v as int == w);
        }
    }
}

} // verus!
