//! The message: what one decoder contributes to one broadcast, and how a
//! batch of messages is laid out on the wire.

use vstd::prelude::*;
use crate::buffer::{buffer_from, contents};
use crate::encoding::{
    le_bytes, le_value, lemma_capacities, lemma_le_bytes_len, lemma_le_round_trip,
    lemma_le_value_bound, push_le, read_le,
};

verus! {

/// Width in bytes of the three fixed fields that precede every payload: the
/// size (8), the record size (8) and the format flags (2).
///
/// This is a constant of the protocol, and its value is a choice: it counts
/// the fields in bytes, as `serialize_messages` emits them, and not in bits
/// (which would give 144). Only with this value does the size field of a
/// message say where the next message begins, so that a receiver can walk a
/// buffer by its size fields. A receiver built for another baseline has to
/// change with it.
pub const MESSAGE_HEADER_SIZE: u64 = 18;

/// One decoder's contribution to a broadcast.
#[derive(Debug, Clone)]
pub struct Message {
    /// Bytes this message takes on the wire, its fixed fields included.
    pub size: u64,
    /// Bytes of one hit in the payload.
    pub hit_size: u64,
    /// The format flags of the file that the payload was read from.
    pub data_type: u16,
    /// The bytes read, as they stood in the file.
    pub data: Vec<u8>,
}

/// A message as a mathematical value.
pub struct MessageView {
    pub size: u64,
    pub hit_size: u64,
    pub data_type: u16,
    pub data: Seq<u8>,
}

impl View for Message {
    type V = MessageView;

    open spec fn view(&self) -> MessageView {
        MessageView {
            size: self.size,
            hit_size: self.hit_size,
            data_type: self.data_type,
            data: self.data@,
        }
    }
}

impl MessageView {
    /// The size field says what the message takes on the wire.
    pub open spec fn well_formed(self) -> bool {
        self.size == MESSAGE_HEADER_SIZE + self.data.len()
    }
}

/// The message that frames `payload`, for a file with the given record size
/// and format flags.
pub open spec fn framed(payload: Seq<u8>, record_size: u64, format_flags: u16) -> MessageView {
    MessageView {
        size: (MESSAGE_HEADER_SIZE + payload.len()) as u64,
        hit_size: record_size,
        data_type: format_flags,
        data: payload,
    }
}

impl Message {
    /// Wraps what one read of a decoder returned. An empty payload is framed
    /// like any other: it says that the file has not grown.
    pub fn frame(payload: Vec<u8>, record_size: u64, format_flags: u16) -> (message: Message)
        requires
            MESSAGE_HEADER_SIZE + payload@.len() <= u64::MAX,
        ensures
            message@ == framed(payload@, record_size, format_flags),
            message@.well_formed(),
    {
        let size: u64 = MESSAGE_HEADER_SIZE + payload.len() as u64;
        Message { size, hit_size: record_size, data_type: format_flags, data: payload }
    }
}

impl Default for Message {
    /// The empty message: no payload, and the size of the fixed fields alone.
    fn default() -> (message: Message)
        ensures
            message@ == framed(Seq::empty(), 0, 0),
    {
        Message { size: MESSAGE_HEADER_SIZE, hit_size: 0, data_type: 0, data: Vec::new() }
    }
}

/// The views of a batch of messages, in order.
pub open spec fn views(messages: Seq<Message>) -> Seq<MessageView> {
    messages.map_values(|message: Message| message@)
}

/// One message on the wire: the size and the record size as eight bytes
/// each and the format flags as two, then the payload. The fields are
/// little-endian on every machine, which is the byte order of the machines
/// that the instrument and the server run on.
pub open spec fn encoded(message: MessageView) -> Seq<u8> {
    le_bytes(message.size as nat, 8) + le_bytes(message.hit_size as nat, 8) + le_bytes(
        message.data_type as nat,
        2,
    ) + message.data
}

/// A batch on the wire: its messages one after the other, in order.
pub open spec fn serialized(messages: Seq<MessageView>) -> Seq<u8>
    decreases messages.len(),
{
    if messages.len() == 0 {
        Seq::empty()
    } else {
        encoded(messages[0]) + serialized(messages.drop_first())
    }
}

/// What a receiver reads out of a buffer by taking, again and again, the
/// three fixed fields and then as many bytes as the size field says. `None`
/// where the buffer ends inside a message, or a size field is smaller than
/// the fixed fields.
pub open spec fn parsed(buffer: Seq<u8>) -> Option<Seq<MessageView>>
    decreases buffer.len(),
{
    if buffer.len() == 0 {
        Some(Seq::empty())
    } else if buffer.len() < MESSAGE_HEADER_SIZE {
        None
    } else {
        let size = le_value(buffer.subrange(0, 8));
        if size < MESSAGE_HEADER_SIZE || size > buffer.len() {
            None
        } else {
            let first = MessageView {
                size: size as u64,
                hit_size: le_value(buffer.subrange(8, 16)) as u64,
                data_type: le_value(buffer.subrange(16, 18)) as u16,
                data: buffer.subrange(18, size as int),
            };
            match parsed(buffer.subrange(size as int, buffer.len() as int)) {
                Some(rest) => Some(seq![first] + rest),
                None => None,
            }
        }
    }
}

/// The messages of `front`, followed by those of `back` if there are any.
pub open spec fn followed_by(front: Seq<MessageView>, back: Option<Seq<MessageView>>) -> Option<
    Seq<MessageView>,
> {
    match back {
        Some(rest) => Some(front + rest),
        None => None,
    }
}

/// A message on the wire takes its fixed fields and its payload.
pub proof fn lemma_encoded_len(message: MessageView)
    ensures
        encoded(message).len() == MESSAGE_HEADER_SIZE + message.data.len(),
{
    lemma_le_bytes_len(message.size as nat, 8);
    lemma_le_bytes_len(message.hit_size as nat, 8);
    lemma_le_bytes_len(message.data_type as nat, 2);
}

/// A batch with one more message at its end is the batch on the wire
/// followed by that message.
pub proof fn lemma_serialized_push(messages: Seq<MessageView>, last: MessageView)
    ensures
        serialized(messages.push(last)) == serialized(messages) + encoded(last),
    decreases messages.len(),
{
    let longer = messages.push(last);
    if messages.len() == 0 {
        assert(longer.drop_first() =~= Seq::<MessageView>::empty());
        assert(serialized(longer.drop_first()) =~= Seq::<u8>::empty());
        assert(serialized(longer) =~= encoded(last));
        assert(serialized(messages) + encoded(last) =~= encoded(last));
    } else {
        lemma_serialized_push(messages.drop_first(), last);
        assert(longer.drop_first() =~= messages.drop_first().push(last));
        assert(longer[0] == messages[0]);
        assert(serialized(longer) =~= serialized(messages) + encoded(last));
    }
}

/// Reading a well-formed message off the front of a buffer gives the
/// message back, and leaves what followed it.
pub proof fn lemma_parsed_front(message: MessageView, rest: Seq<u8>)
    requires
        message.well_formed(),
    ensures
        parsed(encoded(message) + rest) == followed_by(seq![message], parsed(rest)),
{
    let buffer = encoded(message) + rest;
    let size_bytes = le_bytes(message.size as nat, 8);
    let hit_bytes = le_bytes(message.hit_size as nat, 8);
    let type_bytes = le_bytes(message.data_type as nat, 2);
    lemma_le_bytes_len(message.size as nat, 8);
    lemma_le_bytes_len(message.hit_size as nat, 8);
    lemma_le_bytes_len(message.data_type as nat, 2);
    lemma_capacities();
    lemma_le_round_trip(message.size as nat, 8);
    lemma_le_round_trip(message.hit_size as nat, 8);
    lemma_le_round_trip(message.data_type as nat, 2);
    assert(buffer.subrange(0, 8) =~= size_bytes);
    assert(buffer.subrange(8, 16) =~= hit_bytes);
    assert(buffer.subrange(16, 18) =~= type_bytes);
    assert(buffer.subrange(18, message.size as int) =~= message.data);
    assert(buffer.subrange(message.size as int, buffer.len() as int) =~= rest);
    let first = MessageView {
        size: le_value(buffer.subrange(0, 8)) as u64,
        hit_size: le_value(buffer.subrange(8, 16)) as u64,
        data_type: le_value(buffer.subrange(16, 18)) as u16,
        data: buffer.subrange(18, message.size as int),
    };
    assert(first == message);
}

/// Round trip: a batch of well-formed messages, put on the wire and read
/// back by its size fields, gives the same messages in the same order, each
/// with its size, record size, format flags and payload.
pub proof fn lemma_round_trip(messages: Seq<MessageView>)
    requires
        forall|i: int| 0 <= i < messages.len() ==> (#[trigger] messages[i]).well_formed(),
    ensures
        parsed(serialized(messages)) == Some(messages),
    decreases messages.len(),
{
    if messages.len() > 0 {
        let rest = messages.drop_first();
        assert forall|i: int| 0 <= i < rest.len() implies (#[trigger] rest[i]).well_formed() by {
            assert(rest[i] == messages[i + 1]);
        }
        lemma_round_trip(rest);
        lemma_parsed_front(messages[0], serialized(rest));
        assert(seq![messages[0]] + rest =~= messages);
    }
}

/// Appends the bytes of `bytes` to `out`.
fn push_bytes(out: &mut Vec<u8>, bytes: &Vec<u8>)
    ensures
        final(out)@ == old(out)@ + bytes@,
{
    let mut done: usize = 0;
    while done < bytes.len()
        invariant
            done <= bytes@.len(),
            out@ == old(out)@ + bytes@.subrange(0, done as int),
        decreases bytes@.len() - done,
    {
        out.push(bytes[done]);
        done = done + 1;
        assert(out@ =~= old(out)@ + bytes@.subrange(0, done as int));
    }
    assert(bytes@.subrange(0, done as int) =~= bytes@);
}

/// Bytes that the batch takes on the wire; `None` exactly where a `usize` cannot hold them.
fn wire_len(messages: &Vec<Message>) -> (total: Option<usize>)
    ensures
        match total {
            Some(n) => n == serialized(views(messages@)).len(),
            None => serialized(views(messages@)).len() > usize::MAX,
        },
{
    let mut total: usize = 0;
    let mut done: usize = 0;
    while done < messages.len()
        invariant
            done <= messages@.len(),
            total == serialized(views(messages@).subrange(0, done as int)).len(),
        decreases messages@.len() - done,
    {
        proof {
            let all = views(messages@);
            let before = all.subrange(0, done as int);
            assert(all.subrange(0, done + 1) =~= before.push(all[done as int]));
            lemma_serialized_push(before, all[done as int]);
            lemma_encoded_len(all[done as int]);
            lemma_serialized_prefix_len(all, done + 1);
        }
        let payload_len: usize = messages[done].data.len();
        let with_fields = match payload_len.checked_add(MESSAGE_HEADER_SIZE as usize) {
            Some(n) => n,
            None => {
                return None;
            },
        };
        let next = match total.checked_add(with_fields) {
            Some(n) => n,
            None => {
                return None;
            },
        };
        total = next;
        done = done + 1;
    }
    assert(views(messages@).subrange(0, done as int) =~= views(messages@));
    Some(total)
}

/// The first messages of a batch take no more on the wire than the whole
/// batch.
pub proof fn lemma_serialized_prefix_len(messages: Seq<MessageView>, upto: int)
    requires
        0 <= upto <= messages.len(),
    ensures
        serialized(messages.subrange(0, upto)).len() <= serialized(messages).len(),
    decreases messages.len() - upto,
{
    if upto < messages.len() {
        lemma_serialized_prefix_len(messages, upto + 1);
        let before = messages.subrange(0, upto);
        assert(messages.subrange(0, upto + 1) =~= before.push(messages[upto]));
        lemma_serialized_push(before, messages[upto]);
    } else {
        assert(messages.subrange(0, upto) =~= messages);
    }
}

/// Lays a batch of messages out as bytes: for each message in order its
/// size, its record size and its format flags, then its payload. The fields
/// are written as they stand, so a receiver can walk the bytes by the size
/// fields exactly when every message is well formed.
pub fn serialize_messages(mess_list: &Vec<Message>) -> (binary: Vec<u8>)
    ensures
        binary@ == serialized(views(mess_list@)),
{
    let mut binary: Vec<u8> = match wire_len(mess_list) {
        Some(total) => Vec::with_capacity(total),
        None => Vec::new(),
    };
    let mut done: usize = 0;
    while done < mess_list.len()
        invariant
            done <= mess_list@.len(),
            binary@ == serialized(views(mess_list@).subrange(0, done as int)),
        decreases mess_list@.len() - done,
    {
        let ghost start = binary@;
        let mess = &mess_list[done];
        push_le(&mut binary, mess.size, 8);
        push_le(&mut binary, mess.hit_size, 8);
        push_le(&mut binary, mess.data_type as u64, 2);
        push_bytes(&mut binary, &mess.data);
        proof {
            let all = views(mess_list@);
            let before = all.subrange(0, done as int);
            assert(all[done as int] == mess@);
            assert(all.subrange(0, done + 1) =~= before.push(mess@));
            lemma_serialized_push(before, mess@);
            assert(binary@ =~= start + encoded(mess@));
        }
        done = done + 1;
    }
    assert(views(mess_list@).subrange(0, done as int) =~= views(mess_list@));
    binary
}

/// Lays a batch of messages out as one buffer, the unit that is handed to
/// the broadcaster: the bytes that `serialize_messages` gives.
pub fn convert_messages_to_bytes(mess_list: Vec<Message>) -> (buffer: bytes::Bytes)
    ensures
        contents(buffer) == serialized(views(mess_list@)),
{
    buffer_from(serialize_messages(&mess_list))
}

/// Reads a buffer back into its messages, as a receiver does: the three
/// fixed fields, then as many bytes as the size field says, until the
/// buffer is used up. `None` where the buffer ends inside a message, or a
/// size field is smaller than the fixed fields.
pub fn parse_messages(buffer: &[u8]) -> (messages: Option<Vec<Message>>)
    ensures
        match parsed(buffer@) {
            Some(expected) => messages matches Some(found) && views(found@) == expected,
            None => messages is None,
        },
{
    let mut found: Vec<Message> = Vec::new();
    let mut at: usize = 0;
    assert(buffer@.subrange(0, buffer@.len() as int) =~= buffer@);
    assert(views(found@) =~= Seq::<MessageView>::empty());
    while at < buffer.len()
        invariant
            at <= buffer@.len(),
            parsed(buffer@) == followed_by(
                views(found@),
                parsed(buffer@.subrange(at as int, buffer@.len() as int)),
            ),
        decreases buffer@.len() - at,
    {
        let ghost rest = buffer@.subrange(at as int, buffer@.len() as int);
        let left: usize = buffer.len() - at;
        proof {
            if left >= MESSAGE_HEADER_SIZE {
                assert(rest.subrange(0, 8) =~= buffer@.subrange(at as int, at + 8));
                assert(rest.subrange(8, 16) =~= buffer@.subrange(at + 8, at + 16));
                assert(rest.subrange(16, 18) =~= buffer@.subrange(at + 16, at + 18));
                lemma_le_value_bound(buffer@.subrange(at + 16, at + 18));
                lemma_capacities();
            }
        }
        let size: u64 = match read_le(buffer, at, 8) {
            Some(size) => size,
            None => {
                return None;
            },
        };
        if size < MESSAGE_HEADER_SIZE || size > left as u64 {
            return None;
        }
        let hit_size: u64 = match read_le(buffer, at + 8, 8) {
            Some(hit_size) => hit_size,
            None => {
                return None;
            },
        };
        let flags: u64 = match read_le(buffer, at + 16, 2) {
            Some(flags) => flags,
            None => {
                return None;
            },
        };
        let end: usize = at + size as usize;
        let mut data: Vec<u8> = Vec::new();
        let mut from: usize = at + 18;
        while from < end
            invariant
                at + 18 <= from <= end <= buffer@.len(),
                data@ == buffer@.subrange(at + 18, from as int),
            decreases end - from,
        {
            data.push(buffer[from]);
            from = from + 1;
            assert(data@ =~= buffer@.subrange(at + 18, from as int));
        }
        let message = Message { size, hit_size, data_type: flags as u16, data };
        proof {
            assert(rest.subrange(18, size as int) =~= buffer@.subrange(at + 18, end as int));
            assert(rest.subrange(size as int, rest.len() as int) =~= buffer@.subrange(
                end as int,
                buffer@.len() as int,
            ));
            let before = views(found@);
            let tail = parsed(buffer@.subrange(end as int, buffer@.len() as int));
            assert(parsed(rest) == followed_by(seq![message@], tail));
            assert(views(found@.push(message)) =~= before.push(message@));
            if tail is Some {
                assert(before + (seq![message@] + tail->0) =~= before.push(message@) + tail->0);
            }
        }
        found.push(message);
        at = end;
    }
    proof {
        let rest = buffer@.subrange(at as int, buffer@.len() as int);
        assert(rest.len() == 0);
        assert(views(found@) + Seq::<MessageView>::empty() =~= views(found@));
    }
    Some(found)
}

} // verus!
