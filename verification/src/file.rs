//! The decoder of one data file: its format flags, the record size they
//! imply, and the cursor behind which everything has been delivered.

use vstd::prelude::*;
use vstd::string::StringExecFns;
use crate::encoding::le_value;
use crate::message::{framed, Message, MessageView, MESSAGE_HEADER_SIZE};

verus! {

/// Format flag: every record carries an energy (two bytes).
pub const ENERGY: u16 = 0x0001;

/// Format flag: every record carries a short energy (two bytes).
pub const ENERGY_SHORT: u16 = 0x0004;

/// Format flag: every record carries a calibrated energy (eight bytes).
pub const ENERGY_CALIBRATED: u16 = 0x0002;

/// Format flag: records carry waveforms. Such files are not decoded.
pub const WAVES: u16 = 0x0008;

/// Bytes of the fields that every record has: board, channel, timestamp
/// and status flags.
pub const FIXED_RECORD_SIZE: usize = 16;

/// Bytes of the header at the start of a data file.
pub const FILE_HEADER_SIZE: usize = 2;

/// Whether the header word has the given flag set.
pub open spec fn has_flag(word: u16, flag: u16) -> bool {
    word & flag != 0
}

/// Bytes of one record in a file whose header holds `word`.
pub open spec fn record_size(word: u16) -> nat {
    (16 + (if has_flag(word, ENERGY) {
        2int
    } else {
        0int
    }) + (if has_flag(word, ENERGY_SHORT) {
        2int
    } else {
        0int
    }) + (if has_flag(word, ENERGY_CALIBRATED) {
        8int
    } else {
        0int
    })) as nat
}

/// The record size, bit by bit: sixteen bytes, two more where bit 0 of the
/// header word is set, eight more for bit 1 and two more for bit 2. No other
/// bit, and no order of the bits, has a part in it.
pub proof fn lemma_record_size_by_bits(word: u16)
    ensures
        record_size(word) == 16 + 2 * (word % 2) + 8 * ((word / 2) % 2) + 2 * ((word / 4) % 2),
        16 <= record_size(word) <= 28,
{
    assert((word & ENERGY != 0) <==> word % 2 == 1) by (bit_vector);
    assert((word & ENERGY_CALIBRATED != 0) <==> (word / 2) % 2 == 1) by (bit_vector);
    assert((word & ENERGY_SHORT != 0) <==> (word / 4) % 2 == 1) by (bit_vector);
}

/// Why a data file could not be opened or read.
#[derive(Debug)]
pub enum CompassFileError {
    /// The file at this path could not be read, for this reason.
    IOError(String, String),
    /// The file at this path holds waveforms.
    WavesError(String),
}

/// A file error as a mathematical value.
pub enum CompassFileErrorView {
    IOError(Seq<char>, Seq<char>),
    WavesError(Seq<char>),
}

impl CompassFileErrorView {
    /// The error in words.
    pub open spec fn text(self) -> Seq<char> {
        match self {
            CompassFileErrorView::IOError(path, cause) => "File "@ + path
                + " ran into an error: "@ + cause,
            CompassFileErrorView::WavesError(path) => "File "@ + path
                + " was detected to be in waves mode!"@,
        }
    }
}

impl CompassFileError {
    /// The error in words, for a log line.
    pub fn describe(&self) -> (text: String)
        ensures
            text@ == self@.text(),
    {
        let mut text = String::from_str("File ");
        match self {
            CompassFileError::IOError(path, cause) => {
                text.append(path.as_str());
                text.append(" ran into an error: ");
                text.append(cause.as_str());
            },
            CompassFileError::WavesError(path) => {
                text.append(path.as_str());
                text.append(" was detected to be in waves mode!");
            },
        }
        text
    }
}

impl View for CompassFileError {
    type V = CompassFileErrorView;

    open spec fn view(&self) -> CompassFileErrorView {
        match self {
            CompassFileError::IOError(path, cause) => CompassFileErrorView::IOError(path@, cause@),
            CompassFileError::WavesError(path) => CompassFileErrorView::WavesError(path@),
        }
    }
}

/// The part of a file's contents that lies behind the cursor: what the next
/// read delivers. A file shorter than the cursor has nothing to deliver.
pub open spec fn unread(cursor: nat, contents: Seq<u8>) -> Seq<u8> {
    if cursor <= contents.len() {
        contents.subrange(cursor as int, contents.len() as int)
    } else {
        Seq::empty()
    }
}

/// Where the cursor stands after a read of `contents`: at their end, unless
/// it was beyond it already. It never moves back.
pub open spec fn advanced(cursor: nat, contents: Seq<u8>) -> nat {
    if cursor <= contents.len() {
        contents.len()
    } else {
        cursor
    }
}

/// What was read of a file's header, as a mathematical value: the two
/// bytes, or why they could not be read.
pub open spec fn header_view(header: Result<[u8; 2], String>) -> Result<Seq<u8>, Seq<char>> {
    match header {
        Ok(bytes) => Ok(bytes@),
        Err(cause) => Err(cause@),
    }
}

/// What comes of opening the file at `path`: the decoder, or why there is
/// none. The header word is read low byte first.
pub open spec fn open_outcome(path: Seq<char>, header: Result<Seq<u8>, Seq<char>>) -> Result<
    CompassFileView,
    CompassFileErrorView,
> {
    match header {
        Err(cause) => Err(CompassFileErrorView::IOError(path, cause)),
        Ok(bytes) => {
            let word = le_value(bytes) as u16;
            if has_flag(word, WAVES) {
                Err(CompassFileErrorView::WavesError(path))
            } else {
                Ok(
                    CompassFileView {
                        filepath: path,
                        data_type: word,
                        hit_size: record_size(word),
                        cursor: FILE_HEADER_SIZE as nat,
                    },
                )
            }
        },
    }
}

/// A file without waveforms opens, and its decoder has the record size that
/// the flags of the header word imply: sixteen bytes, and two, two and
/// eight more for the energy, the short energy and the calibrated energy.
pub proof fn lemma_opened_file_has_record_size(path: Seq<char>, header: Seq<u8>)
    requires
        !has_flag(le_value(header) as u16, WAVES),
    ensures
        open_outcome(path, Ok(header)) matches Ok(file) && file.well_formed() && file.hit_size
            == record_size(file.data_type) && file.data_type == le_value(header) as u16,
{
}

/// A file with waveforms never opens, whatever else its header holds: the
/// outcome is the waveform error, and there is no decoder.
pub proof fn lemma_waveform_file_never_opens(path: Seq<char>, header: Seq<u8>)
    requires
        has_flag(le_value(header) as u16, WAVES),
    ensures
        open_outcome(path, Ok(header)) == Err::<CompassFileView, CompassFileErrorView>(
            CompassFileErrorView::WavesError(path),
        ),
{
}

/// The decoder of one data file.
#[derive(Debug)]
pub struct CompassFile {
    filepath: String,
    data_type: u16,
    hit_size: usize,
    cursor: usize,
}

/// A decoder as a mathematical value.
pub struct CompassFileView {
    /// The path that the file was opened at.
    pub filepath: Seq<char>,
    /// The header word, as read.
    pub data_type: u16,
    /// Bytes of one record.
    pub hit_size: nat,
    /// Bytes of the file that have been consumed, the header included.
    pub cursor: nat,
}

impl CompassFileView {
    /// What holds of every decoder: the record size is the one its flags
    /// imply, the file holds no waveforms, and the header has been consumed.
    pub open spec fn well_formed(self) -> bool {
        &&& self.hit_size == record_size(self.data_type)
        &&& !has_flag(self.data_type, WAVES)
        &&& self.cursor >= FILE_HEADER_SIZE
    }

    /// The message that a read of `contents` gives: what lies behind the
    /// cursor, framed with the record size and the flags of the file.
    pub open spec fn message_of(self, contents: Seq<u8>) -> MessageView {
        framed(unread(self.cursor, contents), self.hit_size as u64, self.data_type)
    }

    /// The decoder after a read of `contents`: only its cursor has moved.
    pub open spec fn after_read(self, contents: Seq<u8>) -> CompassFileView {
        CompassFileView { cursor: advanced(self.cursor, contents), ..self }
    }

    /// The decoder after one read of each of `reads`, in turn.
    pub open spec fn after_reads(self, reads: Seq<Seq<u8>>) -> CompassFileView
        decreases reads.len(),
    {
        if reads.len() == 0 {
            self
        } else {
            self.after_reads(reads.drop_last()).after_read(reads.last())
        }
    }

    /// The payloads that one read of each of `reads` delivers, in turn, put
    /// one after the other.
    pub open spec fn delivered(self, reads: Seq<Seq<u8>>) -> Seq<u8>
        decreases reads.len(),
    {
        if reads.len() == 0 {
            Seq::empty()
        } else {
            self.delivered(reads.drop_last()) + self.after_reads(reads.drop_last()).message_of(
                reads.last(),
            ).data
        }
    }
}

/// Whether `later` is `earlier` with bytes appended, or the same.
pub open spec fn grew_from(later: Seq<u8>, earlier: Seq<u8>) -> bool {
    earlier.len() <= later.len() && later.subrange(0, earlier.len() as int) == earlier
}

/// Whether the contents are those of one file that was only ever appended
/// to: each is an earlier one with bytes appended, or the same.
pub open spec fn only_grew(reads: Seq<Seq<u8>>) -> bool {
    forall|i: int, j: int|
        0 <= i <= j < reads.len() ==> grew_from(#[trigger] reads[j], #[trigger] reads[i])
}

/// A second read of contents that have not changed delivers an empty
/// payload, and leaves the decoder as the first read left it.
pub proof fn lemma_reread_delivers_nothing(file: CompassFileView, contents: Seq<u8>)
    ensures
        file.after_read(contents).message_of(contents) == framed(
            Seq::empty(),
            file.hit_size as u64,
            file.data_type,
        ),
        file.after_read(contents).after_read(contents) == file.after_read(contents),
{
    let after = advanced(file.cursor, contents);
    assert(unread(after, contents) =~= Seq::<u8>::empty());
}

/// Two reads of a file that only grew in between deliver, one after the
/// other, exactly what one read of the grown file would have delivered: no
/// byte comes twice and none is left out.
pub proof fn lemma_reads_deliver_each_byte_once(
    file: CompassFileView,
    earlier: Seq<u8>,
    later: Seq<u8>,
)
    requires
        earlier.len() <= later.len(),
        later.subrange(0, earlier.len() as int) == earlier,
    ensures
        file.message_of(earlier).data + file.after_read(earlier).message_of(later).data
            == file.message_of(later).data,
        file.after_read(earlier).after_read(later) == file.after_read(later),
{
    assert(forall|i: int| 0 <= i < earlier.len() ==> earlier[i] == later.subrange(
        0,
        earlier.len() as int,
    )[i]);
    assert(unread(file.cursor, earlier) + unread(advanced(file.cursor, earlier), later)
        =~= unread(file.cursor, later));
}

/// Any number of reads of a file that was only ever appended to deliver,
/// one after the other, exactly what one read of the file as it stands at
/// the last of them would have delivered: the bytes between the cursor at
/// the start and the end of the file. No byte comes twice and none is left
/// out. For a decoder that was just opened, that is the whole file behind
/// its header.
pub proof fn lemma_many_reads_deliver_each_byte_once(file: CompassFileView, reads: Seq<Seq<u8>>)
    requires
        reads.len() > 0,
        only_grew(reads),
    ensures
        file.delivered(reads) == file.message_of(reads.last()).data,
        file.after_reads(reads) == file.after_read(reads.last()),
        file.cursor <= reads.last().len() ==> file.delivered(reads) == reads.last().subrange(
            file.cursor as int,
            reads.last().len() as int,
        ),
    decreases reads.len(),
{
    let earlier = reads.drop_last();
    if earlier.len() == 0 {
        assert(file.delivered(earlier) =~= Seq::<u8>::empty());
        assert(file.after_reads(earlier) == file);
        assert(file.delivered(reads) =~= file.message_of(reads.last()).data);
    } else {
        assert forall|i: int, j: int| 0 <= i <= j < earlier.len() implies grew_from(
            #[trigger] earlier[j],
            #[trigger] earlier[i],
        ) by {
            assert(earlier[i] == reads[i] && earlier[j] == reads[j]);
        }
        lemma_many_reads_deliver_each_byte_once(file, earlier);
        assert(earlier.last() == reads[reads.len() - 2]);
        assert(grew_from(reads[reads.len() - 1], reads[reads.len() - 2]));
        lemma_reads_deliver_each_byte_once(file, earlier.last(), reads.last());
    }
}

/// The cursor never moves back: a read moves it on by the length of the
/// payload it delivers.
pub proof fn lemma_cursor_never_moves_back(file: CompassFileView, contents: Seq<u8>)
    ensures
        file.after_read(contents).cursor == file.cursor + file.message_of(contents).data.len(),
{
}

/// A read keeps a decoder well formed.
pub proof fn lemma_read_keeps_well_formed(file: CompassFileView, contents: Seq<u8>)
    requires
        file.well_formed(),
    ensures
        file.after_read(contents).well_formed(),
{
}

impl View for CompassFile {
    type V = CompassFileView;

    closed spec fn view(&self) -> CompassFileView {
        CompassFileView {
            filepath: self.filepath@,
            data_type: self.data_type,
            hit_size: self.hit_size as nat,
            cursor: self.cursor as nat,
        }
    }
}

/// Bytes of one record in a file whose header holds `word`.
pub fn record_size_of(word: u16) -> (size: usize)
    ensures
        size == record_size(word),
        16 <= size <= 28,
{
    let mut size: usize = FIXED_RECORD_SIZE;
    if word & ENERGY != 0 {
        size += 2;
    }
    if word & ENERGY_SHORT != 0 {
        size += 2;
    }
    if word & ENERGY_CALIBRATED != 0 {
        size += 8;
    }
    size
}

impl CompassFile {
    /// Holds of every decoder that exists.
    #[verifier::type_invariant]
    pub open spec fn inv(self) -> bool {
        self@.well_formed()
    }

    /// Opens the decoder of the file at `path`, given the outcome of reading
    /// the file's first two bytes: the bytes, or why they could not be read.
    /// The two bytes are the header word, low byte first. A file that could
    /// not be read, or whose header has the waveform flag, gives an error
    /// and no decoder.
    pub fn new(path: &str, header: Result<[u8; 2], String>) -> (opened: Result<
        CompassFile,
        CompassFileError,
    >)
        ensures
            match opened {
                Ok(file) => open_outcome(path@, header_view(header)) == Ok::<
                    CompassFileView,
                    CompassFileErrorView,
                >(file@),
                Err(error) => open_outcome(path@, header_view(header)) == Err::<
                    CompassFileView,
                    CompassFileErrorView,
                >(error@),
            },
    {
        let bytes = match header {
            Ok(bytes) => bytes,
            Err(cause) => {
                return Err(CompassFileError::IOError(path.to_owned(), cause));
            },
        };
        let header_word: u16 = bytes[0] as u16 + 256 * (bytes[1] as u16);
        proof {
            reveal_with_fuel(le_value, 3);
            assert(bytes@.drop_first().drop_first().len() == 0);
            assert(le_value(bytes@) == bytes@[0] as nat + 256 * (bytes@[1] as nat));
        }
        let datasize = record_size_of(header_word);
        if header_word & WAVES != 0 {
            return Err(CompassFileError::WavesError(path.to_owned()));
        }
        Ok(
            CompassFile {
                filepath: path.to_owned(),
                data_type: header_word,
                hit_size: datasize,
                cursor: FILE_HEADER_SIZE,
            },
        )
    }

    /// Delivers what the file has gained since the last read, given the
    /// outcome of reading the file whole: its contents as they stand, or why
    /// they could not be read. The message carries the bytes behind the
    /// cursor, and the cursor moves to the end of the contents. A failed
    /// read gives an error and leaves the decoder as it was.
    pub fn read_data(&mut self, contents: Result<Vec<u8>, String>) -> (read: Result<
        Message,
        CompassFileError,
    >)
        requires
            contents matches Ok(bytes) ==> MESSAGE_HEADER_SIZE + bytes@.len() <= u64::MAX,
        ensures
            match contents {
                Err(cause) => {
                    &&& read matches Err(e) && e@ == CompassFileErrorView::IOError(
                        old(self)@.filepath,
                        cause@,
                    )
                    &&& final(self)@ == old(self)@
                },
                Ok(bytes) => {
                    &&& read matches Ok(message) && message@ == old(self)@.message_of(bytes@)
                    &&& final(self)@ == old(self)@.after_read(bytes@)
                },
            },
    {
        proof {
            use_type_invariant(&*self);
        }
        let mut bytes = match contents {
            Ok(bytes) => bytes,
            Err(cause) => {
                return Err(CompassFileError::IOError(self.filepath.clone(), cause));
            },
        };
        let payload: Vec<u8> = if self.cursor <= bytes.len() {
            let tail = bytes.split_off(self.cursor);
            self.cursor = self.cursor + tail.len();
            tail
        } else {
            Vec::new()
        };
        Ok(Message::frame(payload, self.hit_size as u64, self.data_type))
    }

    /// The path that the file was opened at.
    pub fn filepath(&self) -> (path: &str)
        ensures
            path@ == self@.filepath,
    {
        self.filepath.as_str()
    }

    /// The header word of the file.
    pub fn data_type(&self) -> (word: u16)
        ensures
            word == self@.data_type,
    {
        self.data_type
    }

    /// Bytes of one record of the file.
    pub fn hit_size(&self) -> (size: usize)
        ensures
            size == self@.hit_size,
    {
        self.hit_size
    }

    /// Bytes of the file consumed so far, the header included.
    pub fn cursor(&self) -> (position: usize)
        ensures
            position == self@.cursor,
    {
        self.cursor
    }
}

} // verus!
