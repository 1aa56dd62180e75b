//! The Tinfoil USB install protocol: the messages a host sends to a Nintendo
//! Switch running Tinfoil, and the commands it reads back.

use vstd::prelude::*;
use vstd::utf8::encode_utf8;
use crate::bytes::{
    decode_le, encode_le, le_bytes, le_value, lemma_le_bytes_len, lemma_le_round_trip, lemma_le_value_bound,
    lemma_le_value_of_le_bytes, pow256,
};

verus! {

/// The USB vendor id of a Nintendo Switch.
pub const SWITCH_VENDOR_ID: u16 = 0x057e;

/// The USB product id of a Nintendo Switch.
pub const SWITCH_PRODUCT_ID: u16 = 0x3000;

/// Bytes read from the device are at most this long.
pub const USB_BUFFER_LEN: usize = 512;

/// A file range is sent in pieces of at most this many bytes.
pub const FILE_CHUNK_LEN: u64 = 0x100000;

/// Command id of "exit".
pub const COMMAND_EXIT: u32 = 0;

/// Command id of "file range".
pub const COMMAND_FILE_RANGE: u32 = 1;

/// Command type of a response.
pub const COMMAND_TYPE_RESPONSE: u8 = 0;

/// "TUL0": the magic that opens the list of files.
pub open spec fn list_magic() -> Seq<u8> {
    seq![0x54u8, 0x55u8, 0x4cu8, 0x30u8]
}

/// "TUC0": the magic that opens a command and a response.
pub open spec fn command_magic() -> Seq<u8> {
    seq![0x54u8, 0x55u8, 0x43u8, 0x30u8]
}

/// `n` zero bytes.
pub open spec fn zeros(n: nat) -> Seq<u8> {
    Seq::new(n, |i: int| 0u8)
}

/// Whether a USB device is a Nintendo Switch, by its vendor and product ids.
pub fn is_nintendo_switch(vendor_id: u16, product_id: u16) -> (res: bool)
    ensures
        res == (vendor_id == SWITCH_VENDOR_ID && product_id == SWITCH_PRODUCT_ID),
        res == (vendor_id == 0x057e && product_id == 0x3000),
{
    vendor_id == SWITCH_VENDOR_ID && product_id == SWITCH_PRODUCT_ID
}

/// The bytes of a string in UTF-8.
pub open spec fn utf8_bytes(s: String) -> Seq<u8> {
    encode_utf8(s@)
}

/// The length that the list announces: each path's UTF-8 bytes and its newline.
pub open spec fn path_list_len(paths: Seq<String>) -> int
    decreases paths.len(),
{
    if paths.len() == 0 {
        0
    } else {
        path_list_len(paths.drop_last()) + utf8_bytes(paths.last()).len() + 1
    }
}

/// The messages that open the list of files, each sent in a transfer of its
/// own: the magic, the length of the list in 4 little-endian bytes (its 32
/// lowest bits), and 8 zero bytes.
pub open spec fn spec_list_header(paths: Seq<String>) -> Seq<Seq<u8>> {
    seq![list_magic(), le_bytes(path_list_len(paths) as nat, 4), zeros(8)]
}

/// A vector holding the given bytes.
fn vec_of(s: &[u8]) -> (res: Vec<u8>)
    ensures
        res@ == s@,
{
    let mut res: Vec<u8> = Vec::new();
    let mut i: usize = 0;
    while i < s.len()
        invariant
            i <= s@.len(),
            res@ == s@.subrange(0, i as int),
        decreases s@.len() - i,
    {
        res.push(s[i]);
        assert(res@ =~= s@.subrange(0, i + 1));
        i = i + 1;
    }
    assert(res@ =~= s@);
    res
}

/// `n` zero bytes.
fn zero_bytes(n: usize) -> (res: Vec<u8>)
    ensures
        res@ == zeros(n as nat),
{
    let mut res: Vec<u8> = Vec::new();
    let mut i: usize = 0;
    while i < n
        invariant
            i <= n,
            res@ == zeros(i as nat),
        decreases n - i,
    {
        res.push(0u8);
        assert(res@ =~= zeros((i + 1) as nat));
        i = i + 1;
    }
    res
}

/// The messages that open the list of game files sent to the device.
pub fn list_header(paths: &Vec<String>) -> (res: Vec<Vec<u8>>)
    requires
        path_list_len(paths@) <= u64::MAX,
    ensures
        res@.map_values(|m: Vec<u8>| m@) == spec_list_header(paths@),
        res@.len() == 3,
        le_value(res@[1]@) == messages_len(spec_path_messages(paths@)) % 0x1_0000_0000,
{
    let mut total: u64 = 0;
    let n = paths.len();
    let mut i: usize = 0;
    assert(paths@.take(0) =~= Seq::<String>::empty());
    while i < n
        invariant
            n == paths@.len(),
            i <= n,
            total == path_list_len(paths@.take(i as int)),
            path_list_len(paths@) <= u64::MAX,
        decreases n - i,
    {
        proof {
            lemma_path_list_len_prefix(paths@, i + 1);
        }
        assert(paths@.take(i + 1).drop_last() =~= paths@.take(i as int));
        let len = paths[i].as_str().as_bytes().len();
        total = total + len as u64 + 1;
        i = i + 1;
    }
    assert(paths@.take(n as int) =~= paths@);
    let mut res: Vec<Vec<u8>> = Vec::new();
    res.push(vec_of(&[0x54u8, 0x55u8, 0x4cu8, 0x30u8]));
    res.push(encode_le(total, 4));
    res.push(zero_bytes(8));
    assert(res@.map_values(|m: Vec<u8>| m@) =~= spec_list_header(paths@));
    proof {
        lemma_list_header_announces_message_bytes(paths@);
        assert(res@[1]@ == res@.map_values(|m: Vec<u8>| m@)[1]);
    }
    res
}

/// The length announced for a prefix of the paths is at most that for all of them.
proof fn lemma_path_list_len_prefix(paths: Seq<String>, k: int)
    requires
        0 <= k <= paths.len(),
    ensures
        path_list_len(paths.take(k)) <= path_list_len(paths),
    decreases paths.len(),
{
    if k < paths.len() {
        assert(paths.take(k) =~= paths.drop_last().take(k));
        lemma_path_list_len_prefix(paths.drop_last(), k);
    } else {
        assert(paths.take(k) =~= paths);
    }
}

/// The message that names one file of the list: its path in UTF-8 and a newline.
pub fn path_message(path: &String) -> (res: Vec<u8>)
    ensures
        res@ == utf8_bytes(*path).push(0x0au8),
{
    let mut res = path.as_str().as_bytes_vec();
    res.push(0x0au8);
    res
}


/// The messages naming the files of the list, in order.
pub open spec fn spec_path_messages(paths: Seq<String>) -> Seq<Seq<u8>> {
    paths.map_values(|p: String| utf8_bytes(p).push(0x0au8))
}

/// The number of bytes in the messages.
pub open spec fn messages_len(messages: Seq<Seq<u8>>) -> int
    decreases messages.len(),
{
    if messages.len() == 0 {
        0
    } else {
        messages_len(messages.drop_last()) + messages.last().len()
    }
}

/// The length that the list header announces is the number of bytes of the
/// path messages that follow it.
pub proof fn lemma_list_len_matches_path_messages(paths: Seq<String>)
    ensures
        path_list_len(paths) == messages_len(spec_path_messages(paths)),
    decreases paths.len(),
{
    if paths.len() > 0 {
        lemma_list_len_matches_path_messages(paths.drop_last());
        assert(spec_path_messages(paths).drop_last() =~= spec_path_messages(paths.drop_last()));
    }
}

/// The length announced for a list is never negative.
proof fn lemma_path_list_len_nonnegative(paths: Seq<String>)
    ensures
        path_list_len(paths) >= 0,
    decreases paths.len(),
{
    if paths.len() > 0 {
        lemma_path_list_len_nonnegative(paths.drop_last());
    }
}

/// The list header is "TUL0", then a length field of 4 bytes whose
/// little-endian value is the number of bytes of the path messages that
/// follow, modulo 2^32, then 8 zero bytes.
pub proof fn lemma_list_header_announces_message_bytes(paths: Seq<String>)
    ensures
        spec_list_header(paths).len() == 3,
        spec_list_header(paths)[0] == seq![0x54u8, 0x55u8, 0x4cu8, 0x30u8],
        spec_list_header(paths)[1].len() == 4,
        le_value(spec_list_header(paths)[1]) == messages_len(spec_path_messages(paths)) % 0x1_0000_0000,
        spec_list_header(paths)[2] == Seq::new(8, |i: int| 0u8),
{
    lemma_path_list_len_nonnegative(paths);
    lemma_list_len_matches_path_messages(paths);
    lemma_le_bytes_len(path_list_len(paths) as nat, 4);
    lemma_le_value_of_le_bytes(path_list_len(paths) as nat, 4);
    reveal_with_fuel(pow256, 5);
}

/// A command header read from the device.
#[derive(Debug, PartialEq, Eq, Structural)]
pub enum CommandHeader {
    /// The header does not start with "TUC0"; it is skipped.
    BadMagic,
    /// A command: its type (byte 4), id (bytes 8..12) and data size (bytes 12..20),
    /// numbers in little-endian order.
    Command { command_type: u8, command_id: u32, data_size: u64 },
}

/// What a command header read from the device says.
pub open spec fn spec_command_header(buf: Seq<u8>) -> CommandHeader {
    if buf.subrange(0, 4) != command_magic() {
        CommandHeader::BadMagic
    } else {
        CommandHeader::Command {
            command_type: buf[4],
            command_id: le_value(buf.subrange(8, 12)) as u32,
            data_size: le_value(buf.subrange(12, 20)) as u64,
        }
    }
}

/// Reads a command header. A header shorter than 4 bytes, or one with the
/// magic and shorter than 20 bytes, is out of the protocol (the host could not
/// slice it).
pub fn parse_command_header(buf: &[u8]) -> (res: CommandHeader)
    requires
        buf@.len() >= 4,
        buf@.subrange(0, 4) == command_magic() ==> buf@.len() >= 20,
    ensures
        res == spec_command_header(buf@),
{
    if !(buf[0] == 0x54u8 && buf[1] == 0x55u8 && buf[2] == 0x43u8 && buf[3] == 0x30u8) {
        assert(buf@.subrange(0, 4)[0] == buf[0]);
        assert(buf@.subrange(0, 4)[1] == buf[1]);
        assert(buf@.subrange(0, 4)[2] == buf[2]);
        assert(buf@.subrange(0, 4)[3] == buf[3]);
        return CommandHeader::BadMagic;
    }
    assert(buf@.subrange(0, 4) =~= command_magic());
    proof {
        lemma_le_value_bound(buf@.subrange(8, 12));
        lemma_le_value_bound(buf@.subrange(12, 20));
        reveal_with_fuel(pow256, 9);
    }
    let command_type = buf[4];
    let command_id = decode_le(buf, 8, 4) as u32;
    let data_size = decode_le(buf, 12, 8);
    CommandHeader::Command { command_type, command_id, data_size }
}

/// What the host does with a command.
#[derive(Clone, Copy, Debug, PartialEq, Eq, Structural)]
pub enum CommandKind {
    /// Stop serving the device.
    Exit,
    /// Send a range of a file.
    FileRange,
    /// Any other id: an error.
    Unknown,
}

/// The kind of command with the given id.
pub fn command_kind(command_id: u32) -> (res: CommandKind)
    ensures
        command_id == 0 ==> res == CommandKind::Exit,
        command_id == 1 ==> res == CommandKind::FileRange,
        command_id > 1 ==> res == CommandKind::Unknown,
        res == if command_id == COMMAND_EXIT {
            CommandKind::Exit
        } else if command_id == COMMAND_FILE_RANGE {
            CommandKind::FileRange
        } else {
            CommandKind::Unknown
        },
{
    if command_id == COMMAND_EXIT {
        CommandKind::Exit
    } else if command_id == COMMAND_FILE_RANGE {
        CommandKind::FileRange
    } else {
        CommandKind::Unknown
    }
}

/// The header of a file range command: how many bytes to send, from which
/// offset of the file, and the length of the file name that follows.
#[derive(Clone, Copy, Debug, PartialEq, Eq, Structural)]
pub struct FileRangeHeader {
    pub range_size: u64,
    pub range_offset: u64,
    pub name_len: u64,
}

/// What a file range header says: three 8-byte little-endian numbers.
pub open spec fn spec_file_range_header(buf: Seq<u8>) -> FileRangeHeader {
    FileRangeHeader {
        range_size: le_value(buf.subrange(0, 8)) as u64,
        range_offset: le_value(buf.subrange(8, 16)) as u64,
        name_len: le_value(buf.subrange(16, 24)) as u64,
    }
}

/// Reads a file range header; one shorter than 24 bytes is out of the protocol.
pub fn parse_file_range_header(buf: &[u8]) -> (res: FileRangeHeader)
    requires
        buf@.len() >= 24,
    ensures
        res == spec_file_range_header(buf@),
        res.range_size as nat == le_value(buf@.subrange(0, 8)),
        res.range_offset as nat == le_value(buf@.subrange(8, 16)),
        res.name_len as nat == le_value(buf@.subrange(16, 24)),
{
    proof {
        lemma_le_value_bound(buf@.subrange(0, 8));
        lemma_le_value_bound(buf@.subrange(8, 16));
        lemma_le_value_bound(buf@.subrange(16, 24));
        reveal_with_fuel(pow256, 9);
    }
    FileRangeHeader {
        range_size: decode_le(buf, 0, 8),
        range_offset: decode_le(buf, 8, 8),
        name_len: decode_le(buf, 16, 8),
    }
}

/// A file range header made of three numbers, each in 8 little-endian bytes,
/// reads back as those three numbers, whatever their size.
pub proof fn lemma_file_range_header_reads_what_was_written(range_size: u64, range_offset: u64, name_len: u64)
    ensures
        spec_file_range_header(le_bytes(range_size as nat, 8) + le_bytes(range_offset as nat, 8) + le_bytes(name_len as nat, 8))
            == (FileRangeHeader { range_size, range_offset, name_len }),
{
    reveal_with_fuel(pow256, 9);
    let a = le_bytes(range_size as nat, 8);
    let b = le_bytes(range_offset as nat, 8);
    let c = le_bytes(name_len as nat, 8);
    lemma_le_bytes_len(range_size as nat, 8);
    lemma_le_bytes_len(range_offset as nat, 8);
    lemma_le_bytes_len(name_len as nat, 8);
    lemma_le_round_trip(range_size as nat, 8);
    lemma_le_round_trip(range_offset as nat, 8);
    lemma_le_round_trip(name_len as nat, 8);
    let buf = a + b + c;
    assert(buf.subrange(0, 8) =~= a);
    assert(buf.subrange(8, 16) =~= b);
    assert(buf.subrange(16, 24) =~= c);
}

/// A command header that does not start with "TUC0" is skipped.
pub proof fn lemma_command_header_without_magic(buf: Seq<u8>)
    requires
        buf.len() >= 4,
        buf.subrange(0, 4) != seq![0x54u8, 0x55u8, 0x43u8, 0x30u8],
    ensures
        spec_command_header(buf) is BadMagic,
{
}

/// A command header made of "TUC0", a type byte, 3 bytes, an id in 4
/// little-endian bytes and a data size in 8 little-endian bytes reads back as
/// that type, id and size, whatever their size.
pub proof fn lemma_command_header_reads_what_was_written(command_type: u8, padding: Seq<u8>, command_id: u32, data_size: u64)
    requires
        padding.len() == 3,
    ensures
        spec_command_header(command_magic() + seq![command_type] + padding
            + le_bytes(command_id as nat, 4) + le_bytes(data_size as nat, 8))
            == (CommandHeader::Command { command_type, command_id, data_size }),
{
    reveal_with_fuel(pow256, 9);
    lemma_le_bytes_len(command_id as nat, 4);
    lemma_le_bytes_len(data_size as nat, 8);
    lemma_le_round_trip(command_id as nat, 4);
    lemma_le_round_trip(data_size as nat, 8);
    let buf = command_magic() + seq![command_type] + padding + le_bytes(command_id as nat, 4) + le_bytes(data_size as nat, 8);
    assert(buf.subrange(0, 4) =~= command_magic());
    assert(buf[4] == command_type);
    assert(buf.subrange(8, 12) =~= le_bytes(command_id as nat, 4));
    assert(buf.subrange(12, 20) =~= le_bytes(data_size as nat, 8));
}

/// The messages of the response to a file range command, each sent in a
/// transfer of its own: "TUC0", the response type, 3 zero bytes, the file
/// range command id in 4 little-endian bytes, the range size in 8
/// little-endian bytes, and 12 zero bytes.
pub open spec fn spec_response_header(range_size: u64) -> Seq<Seq<u8>> {
    seq![
        command_magic(),
        seq![COMMAND_TYPE_RESPONSE],
        zeros(3),
        le_bytes(COMMAND_FILE_RANGE as nat, 4),
        le_bytes(range_size as nat, 8),
        zeros(12),
    ]
}

/// The response header announcing that `range_size` bytes follow.
pub fn response_header(range_size: u64) -> (res: Vec<Vec<u8>>)
    ensures
        res@.map_values(|m: Vec<u8>| m@) == spec_response_header(range_size),
{
    let mut res: Vec<Vec<u8>> = Vec::new();
    res.push(vec_of(&[0x54u8, 0x55u8, 0x43u8, 0x30u8]));
    res.push(vec_of(&[COMMAND_TYPE_RESPONSE]));
    res.push(zero_bytes(3));
    res.push(encode_le(COMMAND_FILE_RANGE as u64, 4));
    res.push(encode_le(range_size, 8));
    res.push(zero_bytes(12));
    assert(res@[0]@ =~= command_magic());
    assert(res@[1]@ =~= seq![COMMAND_TYPE_RESPONSE]);
    assert(res@[2]@ =~= zeros(3));
    assert(res@[3]@ =~= le_bytes(COMMAND_FILE_RANGE as nat, 4));
    assert(res@[4]@ =~= le_bytes(range_size as nat, 8));
    assert(res@[5]@ =~= zeros(12));
    assert(res@.map_values(|m: Vec<u8>| m@) =~= spec_response_header(range_size));
    res
}

/// The range size that a response header announces is the one it was made
/// for: reading its size field back gives `range_size`.
pub proof fn lemma_response_header_round_trip(range_size: u64)
    ensures
        spec_response_header(range_size).len() == 6,
        spec_response_header(range_size)[0] == seq![0x54u8, 0x55u8, 0x43u8, 0x30u8],
        spec_response_header(range_size)[1] == seq![0u8],
        spec_response_header(range_size)[2] == Seq::new(3, |i: int| 0u8),
        spec_response_header(range_size)[3] == seq![1u8, 0u8, 0u8, 0u8],
        spec_response_header(range_size)[4].len() == 8,
        le_value(spec_response_header(range_size)[4]) == range_size,
        le_value(spec_response_header(range_size)[3]) == COMMAND_FILE_RANGE,
        spec_response_header(range_size)[5] == Seq::new(12, |i: int| 0u8),
{
    assert(le_bytes(1, 4) =~= seq![1u8, 0u8, 0u8, 0u8]) by {
        reveal_with_fuel(le_bytes, 5);
    }
    reveal_with_fuel(pow256, 9);
    lemma_le_bytes_len(range_size as nat, 8);
    lemma_le_round_trip(range_size as nat, 8);
    lemma_le_round_trip(COMMAND_FILE_RANGE as nat, 4);
}


/// The state of sending a file range, as the contracts see it: bytes sent so
/// far, bytes to send in all, and the size of the piece read last.
pub struct RangeTransferModel {
    pub sent: nat,
    pub range_size: nat,
    pub read_size: nat,
}

/// The next piece to send: as much as the current piece size allows of what
/// is left, or nothing when everything was sent.
pub open spec fn spec_next_chunk(t: RangeTransferModel) -> Option<nat> {
    if t.sent < t.range_size {
        if t.sent + t.read_size >= t.range_size {
            Some((t.range_size - t.sent) as nat)
        } else {
            Some(t.read_size)
        }
    } else {
        None
    }
}

/// The state after sending the next piece.
pub open spec fn spec_after_chunk(t: RangeTransferModel) -> RangeTransferModel {
    match spec_next_chunk(t) {
        Some(c) => RangeTransferModel { sent: t.sent + c, range_size: t.range_size, read_size: c },
        None => t,
    }
}

/// A state that sending can be in.
pub open spec fn range_transfer_valid(t: RangeTransferModel) -> bool {
    t.sent <= t.range_size && 0 < t.read_size <= FILE_CHUNK_LEN
}

/// The pieces still to send, in order.
pub open spec fn spec_chunks(t: RangeTransferModel) -> Seq<nat>
    decreases t.range_size - t.sent,
{
    if t.sent < t.range_size && t.read_size > 0 {
        seq![spec_next_chunk(t).unwrap()] + spec_chunks(spec_after_chunk(t))
    } else {
        Seq::<nat>::empty()
    }
}

/// The sum of the pieces.
pub open spec fn chunks_sum(chunks: Seq<nat>) -> int
    decreases chunks.len(),
{
    if chunks.len() == 0 {
        0
    } else {
        chunks[0] + chunks_sum(chunks.drop_first())
    }
}

/// Sending a file range in pieces sends exactly the bytes that are left, in
/// pieces of at least one and at most `FILE_CHUNK_LEN` bytes, all of them of
/// the current piece size but the last.
pub proof fn lemma_chunks_cover_range(t: RangeTransferModel)
    requires
        range_transfer_valid(t),
    ensures
        chunks_sum(spec_chunks(t)) == t.range_size - t.sent,
        forall|i: int| 0 <= i < spec_chunks(t).len() ==> 0 < #[trigger] spec_chunks(t)[i] <= FILE_CHUNK_LEN,
        forall|i: int| 0 <= i < spec_chunks(t).len() - 1 ==> #[trigger] spec_chunks(t)[i] == t.read_size,
    decreases t.range_size - t.sent,
{
    if t.sent < t.range_size {
        let next = spec_after_chunk(t);
        lemma_chunks_cover_range(next);
        let c = spec_next_chunk(t).unwrap();
        let cs = spec_chunks(t);
        assert(cs.drop_first() =~= spec_chunks(next));
        if next.sent < next.range_size {
            assert(next.read_size == t.read_size);
        }
        assert forall|i: int| 0 <= i < cs.len() - 1 implies #[trigger] cs[i] == t.read_size by {
            if i > 0 {
                assert(cs[i] == spec_chunks(next)[i - 1]);
            }
        }
        assert forall|i: int| 0 <= i < cs.len() implies 0 < #[trigger] cs[i] <= FILE_CHUNK_LEN by {
            if i > 0 {
                assert(cs[i] == spec_chunks(next)[i - 1]);
            }
        }
    }
}

/// Sending a range of a file: hands out the sizes of the pieces to read and
/// send, one after the other, starting with pieces of `FILE_CHUNK_LEN` bytes.
pub struct RangeTransfer {
    sent: u64,
    range_size: u64,
    read_size: u64,
}

impl View for RangeTransfer {
    type V = RangeTransferModel;

    closed spec fn view(&self) -> RangeTransferModel {
        RangeTransferModel { sent: self.sent as nat, range_size: self.range_size as nat, read_size: self.read_size as nat }
    }
}

impl RangeTransfer {
    #[verifier::type_invariant]
    closed spec fn valid(&self) -> bool {
        range_transfer_valid(self@)
    }

    /// Nothing sent yet of `range_size` bytes.
    pub fn new(range_size: u64) -> (res: RangeTransfer)
        ensures
            res@ == (RangeTransferModel { sent: 0, range_size: range_size as nat, read_size: FILE_CHUNK_LEN as nat }),
            res@.read_size == 0x100000,
    {
        RangeTransfer { sent: 0, range_size, read_size: FILE_CHUNK_LEN }
    }

    /// The number of bytes to read and send next, or `None` once everything was sent.
    pub fn next_chunk(&mut self) -> (res: Option<u64>)
        ensures
            match res {
                Some(c) => spec_next_chunk(old(self)@) == Some(c as nat),
                None => spec_next_chunk(old(self)@) is None,
            },
            final(self)@ == spec_after_chunk(old(self)@),
            range_transfer_valid(final(self)@),
    {
        proof { use_type_invariant(&*self); }
        if self.sent < self.range_size {
            let remaining = self.range_size - self.sent;
            let chunk = if self.read_size >= remaining { remaining } else { self.read_size };
            *self = RangeTransfer { sent: self.sent + chunk, range_size: self.range_size, read_size: chunk };
            Some(chunk)
        } else {
            None
        }
    }

    /// The number of bytes handed out so far.
    pub fn sent(&self) -> (res: u64)
        ensures
            res == self@.sent,
    {
        self.sent
    }

    /// Whether everything was handed out.
    pub fn is_done(&self) -> (res: bool)
        ensures
            res == (self@.sent >= self@.range_size),
    {
        self.sent >= self.range_size
    }
}

} // verus!
