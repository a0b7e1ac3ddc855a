use vstd::prelude::*;
use vstd::utf8::*;
use crate::address::{parse_ipv4, spec_parse_ipv4, with_ipv4, with_port, SocketAddress};
use crate::properties::{
    has_key, key_pos, keys_distinct, lemma_insert_remove_distinct, lemma_key_pos, opt_chars, prop_get, prop_insert, prop_remove, PropSeq,
    Properties,
};
use crate::text::{parse_u16, spec_parse_u16, utf8_to_string};
use crate::transaction::{is_v4_uuid, random_uuid, uuid_from_text, uuid_text, uuid_to_text};

verus! {

/// Type of a SOOD message.
#[derive(Debug, Clone, Copy, PartialEq, Eq, Structural)]
pub enum MessageType {
    /// Query message
    Query,
    /// Response message
    Response,
}

/// The byte that stands for a message type on the wire.
pub open spec fn type_byte(t: MessageType) -> u8 {
    match t {
        MessageType::Query => 0x51u8,
        MessageType::Response => 0x52u8,
    }
}

/// The message type a byte stands for, if any.
pub open spec fn type_of_byte(b: u8) -> Option<MessageType> {
    if b == 0x51u8 {
        Some(MessageType::Query)
    } else if b == 0x52u8 {
        Some(MessageType::Response)
    } else {
        None
    }
}

impl MessageType {
    /// The wire byte of this type: `Q` for a query, `R` for a response.
    pub fn as_byte(&self) -> (b: u8)
        ensures
            b == type_byte(*self),
    {
        match self {
            MessageType::Query => 0x51u8,
            MessageType::Response => 0x52u8,
        }
    }

    /// The type that a wire byte stands for; `None` for any byte but `Q` and `R`.
    pub fn from_byte(b: u8) -> (t: Option<Self>)
        ensures
            t == type_of_byte(b),
    {
        match b {
            0x51u8 => Some(MessageType::Query),
            0x52u8 => Some(MessageType::Response),
            _ => None,
        }
    }
}


/// The protocol version written after the header.
pub const SOOD_VERSION: u8 = 2;

/// The value length that stands for a null value.
pub const NULL_VALUE_MARKER: u16 = 0xffff;

/// The header that opens every message: the ASCII bytes of `SOOD`.
pub open spec fn sood_header() -> Seq<u8> {
    seq![0x53u8, 0x4fu8, 0x4fu8, 0x44u8]
}

/// The key whose value, an IPv4 address, replaces the sender's address.
pub open spec fn reply_address_key() -> Seq<char> {
    "_replyaddr"@
}

/// The key whose value, a port number, replaces the sender's port.
pub open spec fn reply_port_key() -> Seq<char> {
    "_replyport"@
}

/// The key of the transaction id of a query.
pub open spec fn transaction_key() -> Seq<char> {
    "_tid"@
}

/// A length below 65536 as two big-endian bytes.
pub open spec fn be16(n: nat) -> Seq<u8> {
    seq![(n / 256) as u8, (n % 256) as u8]
}

/// The first `max` bytes of `b` (all of them where `b` is no longer).
pub open spec fn clipped(b: Seq<u8>, max: nat) -> Seq<u8> {
    if b.len() <= max {
        b
    } else {
        b.take(max as int)
    }
}

/// One property on the wire: key length (one byte), the key's UTF-8 bytes cut to 255,
/// then either the null marker or the value length (two bytes, big-endian) and the
/// value's UTF-8 bytes cut to 65534.
pub open spec fn encode_property(k: Seq<char>, v: Option<Seq<char>>) -> Seq<u8> {
    let kb = clipped(encode_utf8(k), 255);
    seq![kb.len() as u8] + kb + match v {
        None => seq![0xffu8, 0xffu8],
        Some(s) => {
            let vb = clipped(encode_utf8(s), 65534);
            be16(vb.len()) + vb
        },
    }
}

/// All properties on the wire, in order.
pub open spec fn encode_properties(ps: PropSeq) -> Seq<u8>
    decreases ps.len(),
{
    if ps.len() == 0 {
        seq![]
    } else {
        encode_properties(ps.drop_last()) + encode_property(ps.last().0, ps.last().1)
    }
}

/// A whole message on the wire: header, version, type byte, properties.
pub open spec fn spec_serialize(t: MessageType, ps: PropSeq) -> Seq<u8> {
    sood_header() + seq![2u8, type_byte(t)] + encode_properties(ps)
}

/// An entry put in front of a decoded list, where there is one.
pub open spec fn prepend(k: Seq<char>, v: Option<Seq<char>>, rest: Option<PropSeq>) -> Option<PropSeq> {
    match rest {
        Some(es) => Some(seq![(k, v)] + es),
        None => None,
    }
}

/// The properties that the bytes after the type byte hold, in wire order, repeats
/// included; `None` where an entry has a zero key length, runs past the end, or holds
/// a key or value that is not UTF-8.
pub open spec fn decode_properties(b: Seq<u8>) -> Option<PropSeq>
    decreases b.len(),
{
    if b.len() == 0 {
        Some(seq![])
    } else {
        let kl = b[0] as int;
        if kl == 0 || b.len() < kl + 3 {
            None
        } else {
            let kb = b.subrange(1, kl + 1);
            let vl = b[kl + 1] as int * 256 + b[kl + 2] as int;
            let start = kl + 3;
            if !valid_utf8(kb) {
                None
            } else if vl == 0xffff {
                prepend(decode_utf8(kb), None, decode_properties(b.skip(start)))
            } else if b.len() < start + vl {
                None
            } else {
                let vb = b.subrange(start, start + vl);
                if !valid_utf8(vb) {
                    None
                } else {
                    prepend(
                        decode_utf8(kb),
                        Some(decode_utf8(vb)),
                        decode_properties(b.skip(start + vl)),
                    )
                }
            }
        }
    }
}

/// The property list that inserting the entries one after the other builds: a later
/// value for a key replaces an earlier one.
pub open spec fn collect_properties(es: PropSeq) -> PropSeq
    decreases es.len(),
{
    if es.len() == 0 {
        seq![]
    } else {
        prop_insert(collect_properties(es.drop_last()), es.last().0, es.last().1)
    }
}

/// The sender address after a `_replyaddr` entry: replaced where its value reads as
/// an IPv4 address.
pub open spec fn apply_reply_address(from: SocketAddress, v: Option<Option<Seq<char>>>) -> SocketAddress {
    match v {
        Some(Some(s)) => match spec_parse_ipv4(encode_utf8(s)) {
            Some(ip) => with_ipv4(from, ip),
            None => from,
        },
        _ => from,
    }
}

/// The sender address after a `_replyport` entry: the port replaced where its value
/// reads as a port number.
pub open spec fn apply_reply_port(from: SocketAddress, v: Option<Option<Seq<char>>>) -> SocketAddress {
    match v {
        Some(Some(s)) => match spec_parse_u16(encode_utf8(s)) {
            Some(p) => with_port(from, p),
            None => from,
        },
        _ => from,
    }
}

/// A parsed message: sender address, type and properties.
pub type MessageModel = (SocketAddress, MessageType, PropSeq);

/// What a packet `buf` received from `from` is read as; `None` for anything that is
/// not a SOOD message.
pub open spec fn spec_parse_message(buf: Seq<u8>, from: SocketAddress) -> Option<MessageModel> {
    if buf.len() < 6 || buf.take(4) != sood_header() || buf[4] != 2 {
        None
    } else {
        match type_of_byte(buf[5]) {
            None => None,
            Some(t) => match decode_properties(buf.skip(6)) {
                None => None,
                Some(es) => {
                    let ps0 = collect_properties(es);
                    let from1 = apply_reply_address(from, prop_get(ps0, reply_address_key()));
                    let ps1 = prop_remove(ps0, reply_address_key());
                    let from2 = apply_reply_port(from1, prop_get(ps1, reply_port_key()));
                    Some((from2, t, prop_remove(ps1, reply_port_key())))
                },
            },
        }
    }
}

/// A parsed SOOD message.
#[derive(Debug)]
pub struct Message {
    /// The source address of the message
    pub from: SocketAddress,
    /// The message type
    pub msg_type: MessageType,
    /// Message properties as key-value pairs (`None` represents null)
    pub properties: Properties,
}

impl Message {
    /// The message as a mathematical value.
    pub open spec fn model(&self) -> MessageModel {
        (self.from, self.msg_type, self.properties@)
    }
}

impl Clone for Message {
    /// A copy of the message.
    fn clone(&self) -> (r: Self)
        ensures
            r.model() == self.model(),
    {
        Message { from: self.from, msg_type: self.msg_type, properties: self.properties.clone() }
    }
}

/// Appends the first `n` bytes of `src` to `buf`.
fn push_bytes(buf: &mut Vec<u8>, src: &[u8], n: usize)
    requires
        n <= src@.len(),
    ensures
        final(buf)@ == old(buf)@ + src@.take(n as int),
{
    let mut i: usize = 0;
    while i < n
        invariant
            i <= n <= src@.len(),
            buf@ == old(buf)@ + src@.take(i as int),
        decreases n - i,
    {
        buf.push(src[i]);
        i = i + 1;
        assert(buf@ =~= old(buf)@ + src@.take(i as int));
    }
}

/// Appends one property to `buf`.
fn write_property(buf: &mut Vec<u8>, key: &String, value: &Option<String>)
    ensures
        final(buf)@ == old(buf)@ + encode_property(key@, opt_chars(*value)),
{
    let key_bytes = key.as_str().as_bytes();
    let key_len: usize = if key_bytes.len() < 255 { key_bytes.len() } else { 255 };
    assert(key_bytes@.take(key_len as int) =~= clipped(encode_utf8(key@), 255));
    buf.push(key_len as u8);
    push_bytes(buf, key_bytes, key_len);
    match value {
        None => {
            buf.push(0xffu8);
            buf.push(0xffu8);
            assert(buf@ =~= old(buf)@ + encode_property(key@, opt_chars(*value)));
        },
        Some(val) => {
            let val_bytes = val.as_str().as_bytes();
            let val_len: usize = if val_bytes.len() < 65534 { val_bytes.len() } else { 65534 };
            assert(val_bytes@.take(val_len as int) =~= clipped(encode_utf8(val@), 65534));
            buf.push((val_len / 256) as u8);
            buf.push((val_len % 256) as u8);
            push_bytes(buf, val_bytes, val_len);
            assert(buf@ =~= old(buf)@ + encode_property(key@, opt_chars(*value)));
        },
    }
}

/// Serializes a message of the given type with the given properties: header
/// `SOOD`, version 2, the type byte, then each property in order. Keys are cut to
/// 255 bytes and values to 65534 bytes.
pub fn serialize_message(msg_type: MessageType, properties: &Properties) -> (r: Vec<u8>)
    ensures
        r@ == spec_serialize(msg_type, properties@),
{
    let mut buf: Vec<u8> = Vec::new();
    buf.push(0x53u8);
    buf.push(0x4fu8);
    buf.push(0x4fu8);
    buf.push(0x44u8);
    buf.push(SOOD_VERSION);
    buf.push(msg_type.as_byte());
    let ghost head = buf@;
    assert(head =~= sood_header() + seq![2u8, type_byte(msg_type)]);
    let n = properties.len();
    let mut i: usize = 0;
    while i < n
        invariant
            n == properties@.len(),
            i <= n,
            head == sood_header() + seq![2u8, type_byte(msg_type)],
            buf@ == head + encode_properties(properties@.take(i as int)),
        decreases n - i,
    {
        let (key, value) = properties.entry(i);
        write_property(&mut buf, key, value);
        assert(properties@.take(i + 1).drop_last() =~= properties@.take(i as int));
        assert(buf@ =~= head + encode_properties(properties@.take(i + 1)));
        i = i + 1;
    }
    assert(properties@.take(n as int) =~= properties@);
    buf
}

/// Serializes a SOOD response message.
pub fn serialize_response(properties: &mut Properties) -> (r: Vec<u8>)
    ensures
        final(properties)@ == old(properties)@,
        r@ == spec_serialize(MessageType::Response, final(properties)@),
{
    serialize_message(MessageType::Response, properties)
}

/// Serializes a SOOD query message, first storing a fresh random transaction id
/// under `_tid` where the properties hold none.
pub fn serialize_query(properties: &mut Properties) -> (r: Vec<u8>)
    ensures
        has_key(old(properties)@, transaction_key()) ==> final(properties)@ == old(properties)@,
        !has_key(old(properties)@, transaction_key()) ==> exists|v: u128|
            final(properties)@ == old(properties)@.push((transaction_key(), Some(uuid_text(v))))
                && uuid_from_text(#[trigger] uuid_text(v)) == Some(v) && is_v4_uuid(v),
        has_key(final(properties)@, transaction_key()),
        r@ == spec_serialize(MessageType::Query, final(properties)@),
{
    if !properties.contains_key("_tid") {
        let v = random_uuid();
        let text = uuid_to_text(v);
        let key = "_tid".to_string();
        properties.insert(key, Some(text));
        proof {
            lemma_key_pos(old(properties)@, transaction_key());
            lemma_key_pos(properties@, transaction_key());
            assert(properties@[old(properties)@.len() as int].0 == transaction_key());
        }
    }
    serialize_message(MessageType::Query, properties)
}


/// Reads the property that starts at `buf[pos]`, giving its key, its value and the
/// position after it.
fn read_property(buf: &[u8], pos: usize) -> (r: Option<(String, Option<String>, usize)>)
    requires
        pos < buf@.len(),
    ensures
        match r {
            None => decode_properties(buf@.skip(pos as int)) is None,
            Some((k, v, next)) => {
                &&& pos < next <= buf@.len()
                &&& decode_properties(buf@.skip(pos as int)) == prepend(
                    k@,
                    opt_chars(v),
                    decode_properties(buf@.skip(next as int)),
                )
            },
        },
{
    let ghost b = buf@.skip(pos as int);
    let key_len = buf[pos] as usize;
    if key_len == 0 {
        return None;
    }
    if buf.len() - pos < key_len + 3 {
        return None;
    }
    let kstart = pos + 1;
    let kend = kstart + key_len;
    assert(buf@.subrange(kstart as int, kend as int) =~= b.subrange(1, key_len + 1));
    let key = match utf8_to_string(&buf[kstart..kend]) {
        Some(k) => k,
        None => {
            return None;
        },
    };
    let val_len: u16 = (buf[kend] as u16) * 256 + buf[kend + 1] as u16;
    assert(val_len == b[key_len + 1] as int * 256 + b[key_len + 2] as int);
    let vstart = kend + 2;
    if val_len == NULL_VALUE_MARKER {
        assert(buf@.skip(vstart as int) =~= b.skip(vstart - pos));
        return Some((key, None, vstart));
    }
    if val_len == 0 {
        assert(b.subrange(vstart - pos, vstart - pos) =~= Seq::<u8>::empty());
        assert(decode_utf8(Seq::<u8>::empty()) =~= Seq::<char>::empty());
        assert(buf@.skip(vstart as int) =~= b.skip(vstart - pos));
        return Some((key, Some(String::new()), vstart));
    }
    let vl = val_len as usize;
    if buf.len() - vstart < vl {
        return None;
    }
    assert(buf@.subrange(vstart as int, (vstart + vl) as int) =~= b.subrange(
        vstart - pos,
        vstart - pos + vl,
    ));
    match utf8_to_string(&buf[vstart..vstart + vl]) {
        Some(v) => {
            assert(buf@.skip((vstart + vl) as int) =~= b.skip(vstart - pos + vl));
            Some((key, Some(v), vstart + vl))
        },
        None => None,
    }
}

/// Parses a SOOD message from a UDP packet received from `from`.
///
/// Returns `None` if the packet does not follow the SOOD protocol. A `_replyaddr`
/// property, removed from the result, replaces the sender's IP address where it
/// reads as an IPv4 address; a `_replyport` property, removed too, replaces the port
/// where it reads as a port number.
pub fn parse_message(buf: &[u8], from: SocketAddress) -> (r: Option<Message>)
    ensures
        match r {
            None => spec_parse_message(buf@, from) is None,
            Some(m) => spec_parse_message(buf@, from) == Some(m.model()),
        },
{
    let mut from = from;
    if buf.len() < 6 {
        return None;
    }
    if buf[0] != 0x53u8 || buf[1] != 0x4fu8 || buf[2] != 0x4fu8 || buf[3] != 0x44u8 {
        assert(buf@.take(4) != sood_header()) by {
            assert(buf@.take(4)[0] == buf@[0]);
            assert(buf@.take(4)[1] == buf@[1]);
            assert(buf@.take(4)[2] == buf@[2]);
            assert(buf@.take(4)[3] == buf@[3]);
        }
        return None;
    }
    assert(buf@.take(4) =~= sood_header());
    if buf[4] != SOOD_VERSION {
        return None;
    }
    let msg_type = match MessageType::from_byte(buf[5]) {
        Some(t) => t,
        None => {
            return None;
        },
    };
    let mut props = Properties::new();
    let mut pos: usize = 6;
    let ghost body = buf@.skip(6);
    let ghost mut done: PropSeq = seq![];
    while pos < buf.len()
        invariant
            6 <= pos <= buf@.len(),
            body == buf@.skip(6),
            props@ == collect_properties(done),
            match decode_properties(buf@.skip(pos as int)) {
                Some(rest) => decode_properties(body) == Some(done + rest),
                None => decode_properties(body) is None,
            },
        decreases buf@.len() - pos,
    {
        let (key, value, next) = match read_property(buf, pos) {
            Some(e) => e,
            None => {
                return None;
            },
        };
        proof {
            let old_done = done;
            done = done.push((key@, opt_chars(value)));
            assert(done.drop_last() =~= old_done);
            match decode_properties(buf@.skip(next as int)) {
                Some(rest) => {
                    assert(old_done + (seq![(key@, opt_chars(value))] + rest) =~= done + rest);
                },
                None => {},
            }
        }
        props.insert(key, value);
        pos = next;
    }
    assert(buf@.skip(pos as int) =~= Seq::<u8>::empty());
    assert(done + Seq::<(Seq<char>, Option<Seq<char>>)>::empty() =~= done);
    let a = props.remove("_replyaddr");
    match a {
        Some(Some(addr)) => match parse_ipv4(addr.as_str().as_bytes()) {
            Some(ip) => from.set_ipv4(ip),
            None => {},
        },
        _ => {},
    }
    let p = props.remove("_replyport");
    match p {
        Some(Some(port_str)) => match parse_u16(port_str.as_str().as_bytes()) {
            Some(port) => from.set_port(port),
            None => {},
        },
        _ => {},
    }
    Some(Message { from, msg_type, properties: props })
}


/// A property that survives the trip over the wire unchanged: its key takes 1 to 255
/// bytes and its value, if not null, at most 65534 bytes.
pub open spec fn property_fits(k: Seq<char>, v: Option<Seq<char>>) -> bool {
    &&& 1 <= encode_utf8(k).len() <= 255
    &&& v matches Some(s) ==> encode_utf8(s).len() <= 65534
}

/// Every property of the list fits.
pub open spec fn properties_fit(ps: PropSeq) -> bool {
    forall|i: int| 0 <= i < ps.len() ==> #[trigger] property_fits(ps[i].0, ps[i].1)
}

/// Decoding one encoded property that fits gives it back, followed by whatever the
/// rest decodes to.
proof fn lemma_decode_property(k: Seq<char>, v: Option<Seq<char>>, tail: Seq<u8>)
    requires
        property_fits(k, v),
    ensures
        decode_properties(encode_property(k, v) + tail) == prepend(k, v, decode_properties(tail)),
{
    let kb = encode_utf8(k);
    encode_utf8_valid_utf8(k);
    encode_utf8_decode_utf8(k);
    let kl = kb.len() as int;
    assert(clipped(kb, 255) == kb);
    let b = encode_property(k, v) + tail;
    assert(b[0] == kl as u8);
    assert(b.subrange(1, kl + 1) =~= kb);
    match v {
        None => {
            assert(b[kl + 1] == 0xffu8);
            assert(b[kl + 2] == 0xffu8);
            assert(b.skip(kl + 3) =~= tail);
        },
        Some(s) => {
            let vb = encode_utf8(s);
            encode_utf8_valid_utf8(s);
            encode_utf8_decode_utf8(s);
            assert(clipped(vb, 65534) == vb);
            let n = vb.len();
            assert(b[kl + 1] == (n / 256) as u8);
            assert(b[kl + 2] == (n % 256) as u8);
            assert(((n / 256) as u8) as int * 256 + ((n % 256) as u8) as int == n);
            assert(b.subrange(kl + 3, kl + 3 + n) =~= vb);
            assert(b.skip(kl + 3 + n) =~= tail);
        },
    }
}

/// Decoding the encoding of fitting properties, followed by more bytes, gives those
/// properties followed by whatever the rest decodes to.
proof fn lemma_decode_encoded(ps: PropSeq, tail: Seq<u8>)
    requires
        properties_fit(ps),
    ensures
        decode_properties(encode_properties(ps) + tail) == match decode_properties(tail) {
            Some(t) => Some(ps + t),
            None => None,
        },
    decreases ps.len(),
{
    if ps.len() == 0 {
        assert(encode_properties(ps) + tail =~= tail);
        match decode_properties(tail) {
            Some(t) => {
                assert(ps + t =~= t);
            },
            None => {},
        }
    } else {
        let pre = ps.drop_last();
        let last = ps.last();
        assert(property_fits(ps[ps.len() - 1].0, ps[ps.len() - 1].1));
        assert forall|i: int| 0 <= i < pre.len() implies #[trigger] property_fits(
            pre[i].0,
            pre[i].1,
        ) by {
            assert(pre[i] == ps[i]);
            assert(property_fits(ps[i].0, ps[i].1));
        }
        let t2 = encode_property(last.0, last.1) + tail;
        assert(encode_properties(ps) + tail =~= encode_properties(pre) + t2);
        lemma_decode_encoded(pre, t2);
        lemma_decode_property(last.0, last.1, tail);
        match decode_properties(tail) {
            Some(t) => {
                assert(pre + (seq![(last.0, last.1)] + t) =~= ps + t);
            },
            None => {},
        }
    }
}

/// Inserting properties with distinct keys one after the other gives them back in
/// the same order.
proof fn lemma_collect_distinct(ps: PropSeq)
    requires
        keys_distinct(ps),
    ensures
        collect_properties(ps) == ps,
    decreases ps.len(),
{
    if ps.len() > 0 {
        let pre = ps.drop_last();
        let n = ps.len() - 1;
        assert forall|i: int, j: int| 0 <= i < j < pre.len() implies pre[i].0 != pre[j].0 by {
            assert(pre[i] == ps[i]);
            assert(pre[j] == ps[j]);
        }
        lemma_collect_distinct(pre);
        lemma_key_pos(pre, ps.last().0);
        if has_key(pre, ps.last().0) {
            let p = key_pos(pre, ps.last().0);
            assert(pre[p] == ps[p]);
            assert(ps[p].0 != ps[n].0);
        }
        assert(pre.push(ps.last()) =~= ps);
    }
}

/// Inserting entries one after the other never repeats a key.
proof fn lemma_collect_keys_distinct(es: PropSeq)
    ensures
        keys_distinct(collect_properties(es)),
    decreases es.len(),
{
    if es.len() > 0 {
        lemma_collect_keys_distinct(es.drop_last());
        lemma_insert_remove_distinct(
            collect_properties(es.drop_last()),
            es.last().0,
            es.last().1,
        );
    }
}

/// After removing `k` from a list without repeated keys, `k` is absent; a key that
/// was absent stays absent.
proof fn lemma_remove_absent(ps: PropSeq, k: Seq<char>, other: Seq<char>)
    requires
        keys_distinct(ps),
    ensures
        !has_key(prop_remove(ps, k), k),
        !has_key(ps, other) ==> !has_key(prop_remove(ps, k), other),
        keys_distinct(prop_remove(ps, k)),
{
    lemma_insert_remove_distinct(ps, k, None);
    lemma_key_pos(ps, k);
    lemma_key_pos(ps, other);
    let r = prop_remove(ps, k);
    lemma_key_pos(r, k);
    lemma_key_pos(r, other);
    if has_key(ps, k) {
        let p = key_pos(ps, k);
        if has_key(r, k) {
            let q = key_pos(r, k);
            let q2 = if q < p { q } else { q + 1 };
            assert(r[q] == ps[q2]);
        }
        if has_key(r, other) {
            let q = key_pos(r, other);
            let q2 = if q < p { q } else { q + 1 };
            assert(r[q] == ps[q2]);
        }
    }
}

/// A received message never keeps the `_replyaddr` and `_replyport` properties, and
/// never repeats a key.
pub proof fn lemma_parsed_properties(buf: Seq<u8>, from: SocketAddress)
    ensures
        spec_parse_message(buf, from) matches Some(m) ==> {
            &&& !has_key(m.2, reply_address_key())
            &&& !has_key(m.2, reply_port_key())
            &&& keys_distinct(m.2)
        },
{
    if let Some(m) = spec_parse_message(buf, from) {
        let es = decode_properties(buf.skip(6)).unwrap();
        let ps0 = collect_properties(es);
        lemma_collect_keys_distinct(es);
        lemma_remove_absent(ps0, reply_address_key(), reply_port_key());
        let ps1 = prop_remove(ps0, reply_address_key());
        lemma_remove_absent(ps1, reply_port_key(), reply_address_key());
    }
}

/// A message serialized from properties that fit, without `_replyaddr` or
/// `_replyport`, reads back as the same type and properties, from the address it
/// came from.
pub proof fn lemma_serialize_parse_roundtrip(t: MessageType, ps: PropSeq, from: SocketAddress)
    requires
        keys_distinct(ps),
        properties_fit(ps),
        !has_key(ps, reply_address_key()),
        !has_key(ps, reply_port_key()),
    ensures
        spec_parse_message(spec_serialize(t, ps), from) == Some((from, t, ps)),
{
    let buf = spec_serialize(t, ps);
    assert(buf.take(4) =~= sood_header());
    assert(buf.skip(6) =~= encode_properties(ps) + Seq::<u8>::empty());
    lemma_decode_encoded(ps, Seq::<u8>::empty());
    assert(decode_properties(Seq::<u8>::empty()) == Some(Seq::<(Seq<char>, Option<Seq<char>>)>::empty()));
    assert(ps + Seq::<(Seq<char>, Option<Seq<char>>)>::empty() =~= ps);
    lemma_collect_distinct(ps);
}

} // verus!
