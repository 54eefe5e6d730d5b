//! The three kinds of record and their byte layouts. Each record starts with
//! a discriminator, a short text that names its kind, followed by the flag
//! that tells whether the record was ever written.

use crate::address::Address;
use crate::error::IntroError;
use crate::wire::{
    address_at, bool_at, bool_byte, lemma_address_read_back, lemma_bool_read_back,
    lemma_text_read_back, lemma_u64_read_back, put_bool, put_bytes, put_text, put_u64,
    read_address, read_bool, read_text, read_u64, text_at, text_bytes, text_fits, text_len,
    text_size, u32_from_le, u64_at, u64_le,
};
use vstd::prelude::*;
use vstd::utf8::{
    decode_utf8, decode_utf8_encode_utf8, encode_utf8, is_ascii_chars_encode_utf8,
};

verus! {

/// Capacity of the storage of an introduction and of a reply, in bytes.
pub const RECORD_CAPACITY: usize = 1000;

/// Discriminator of an introduction.
pub open spec fn intro_tag() -> Seq<char> {
    seq!['i', 'n', 't', 'r', 'o']
}

/// Discriminator of a reply counter.
pub open spec fn counter_tag() -> Seq<char> {
    seq!['c', 'o', 'u', 'n', 't', 'e', 'r']
}

/// Discriminator of a reply.
pub open spec fn reply_tag() -> Seq<char> {
    seq!['r', 'e', 'p', 'l', 'y']
}

/// The discriminators are plain ASCII, one byte a letter.
pub proof fn lemma_tag_sizes()
    ensures
        IntroAccountState::DISCRIMINATOR@ == intro_tag(),
        IntroReplyCounter::DISCRIMINATOR@ == counter_tag(),
        IntroReply::DISCRIMINATOR@ == reply_tag(),
        encode_utf8(intro_tag()).len() == 5,
        encode_utf8(counter_tag()).len() == 7,
        encode_utf8(reply_tag()).len() == 5,
{
    reveal_strlit("intro");
    reveal_strlit("counter");
    reveal_strlit("reply");
    assert(IntroAccountState::DISCRIMINATOR@ =~= intro_tag());
    assert(IntroReplyCounter::DISCRIMINATOR@ =~= counter_tag());
    assert(IntroReply::DISCRIMINATOR@ =~= reply_tag());
    is_ascii_chars_encode_utf8(intro_tag());
    is_ascii_chars_encode_utf8(counter_tag());
    is_ascii_chars_encode_utf8(reply_tag());
}

/// Thirty-two or however many zero bytes: storage as the ledger hands it out.
pub open spec fn zeros(n: nat) -> Seq<u8> {
    Seq::new(n, |i: int| 0u8)
}

/// An introduction, as a mathematical value.
pub struct IntroRecord {
    pub discriminator: Seq<char>,
    pub is_initialized: bool,
    pub introducer: Seq<u8>,
    pub name: Seq<char>,
    pub message: Seq<char>,
}

/// Size of the encoding of an introduction with this name and message: the
/// discriminator with its prefix, the flag, the introducer, and each text
/// with its prefix.
pub open spec fn intro_size(name: Seq<char>, message: Seq<char>) -> nat {
    (4 + 5) + 1 + 32 + text_size(name) + text_size(message)
}

impl IntroRecord {
    /// Whether the record can be written down: each text short enough for
    /// its prefix, the introducer a full address.
    pub open spec fn encodable(self) -> bool {
        &&& text_fits(self.discriminator)
        &&& text_fits(self.name)
        &&& text_fits(self.message)
        &&& self.introducer.len() == 32
    }

    /// The bytes that stand for the record.
    pub open spec fn encoding(self) -> Seq<u8> {
        text_bytes(self.discriminator) + bool_byte(self.is_initialized) + self.introducer
            + text_bytes(self.name) + text_bytes(self.message)
    }

    /// Number of bytes of the encoding.
    pub open spec fn size(self) -> nat {
        text_size(self.discriminator) + 1 + 32 + text_size(self.name) + text_size(self.message)
    }

    /// The record that the front of `b` spells, if it spells one. Bytes
    /// behind the record are not looked at.
    pub open spec fn decoding(b: Seq<u8>) -> Option<IntroRecord> {
        match text_at(b, 0) {
            Some((discriminator, p1)) => match bool_at(b, p1) {
                Some((is_initialized, p2)) => match address_at(b, p2) {
                    Some((introducer, p3)) => match text_at(b, p3) {
                        Some((name, p4)) => match text_at(b, p4) {
                            Some((message, _)) => Some(
                                IntroRecord {
                                    discriminator,
                                    is_initialized,
                                    introducer,
                                    name,
                                    message,
                                },
                            ),
                            None => None,
                        },
                        None => None,
                    },
                    None => None,
                },
                None => None,
            },
            None => None,
        }
    }

    /// The record that fresh storage spells: nothing in it, not initialized.
    pub open spec fn blank() -> IntroRecord {
        IntroRecord {
            discriminator: Seq::empty(),
            is_initialized: false,
            introducer: zeros(32),
            name: Seq::empty(),
            message: Seq::empty(),
        }
    }

    /// The encoding has the size that `size` says.
    pub proof fn lemma_encoding_len(self)
        requires
            self.encodable(),
        ensures
            self.encoding().len() == self.size(),
    {
    }

    /// Decoding undoes encoding, whatever follows the record in the buffer.
    pub proof fn lemma_decode_encoding(self, tail: Seq<u8>)
        requires
            self.encodable(),
        ensures
            IntroRecord::decoding(self.encoding() + tail) == Some(self),
    {
        let b = self.encoding() + tail;
        let e1 = text_bytes(self.discriminator);
        let e2 = bool_byte(self.is_initialized);
        let e3 = self.introducer;
        let e4 = text_bytes(self.name);
        let e5 = text_bytes(self.message);
        let p1: int = e1.len() as int;
        let p2: int = p1 + 1;
        let p3: int = p2 + 32;
        let p4: int = p3 + e4.len();
        assert(b.subrange(0, p1) =~= e1);
        assert(b.subrange(p1, p2) =~= e2);
        assert(b.subrange(p2, p3) =~= e3);
        assert(b.subrange(p3, p4) =~= e4);
        assert(b.subrange(p4, p4 + e5.len()) =~= e5);
        lemma_text_read_back(b, 0, self.discriminator);
        lemma_bool_read_back(b, p1, self.is_initialized);
        lemma_address_read_back(b, p2, self.introducer);
        lemma_text_read_back(b, p3, self.name);
        lemma_text_read_back(b, p4, self.message);
    }

    /// Fresh storage of at least forty-five bytes spells the blank record.
    pub proof fn lemma_fresh_storage(n: nat)
        requires
            n >= 45,
        ensures
            IntroRecord::decoding(zeros(n)) == Some(IntroRecord::blank()),
    {
        let b = zeros(n);
        assert(b.subrange(4, 4) =~= Seq::<u8>::empty());
        assert(b.subrange(41, 41) =~= Seq::<u8>::empty());
        assert(b.subrange(45, 45) =~= Seq::<u8>::empty());
        assert(b.subrange(5, 37) =~= zeros(32));
        assert(decode_utf8(Seq::<u8>::empty()) =~= Seq::<char>::empty());
        assert(text_at(b, 0) == Some((Seq::<char>::empty(), 4int)));
        assert(bool_at(b, 4) == Some((false, 5int)));
        assert(address_at(b, 5) == Some((zeros(32), 37int)));
        assert(text_at(b, 37) == Some((Seq::<char>::empty(), 41int)));
        assert(text_at(b, 41) == Some((Seq::<char>::empty(), 45int)));
    }
}

/// An introduction: who made it, under which name, with which message.
pub struct IntroAccountState {
    pub discriminator: String,
    pub is_initialized: bool,
    pub introducer: Address,
    pub name: String,
    pub message: String,
}

impl View for IntroAccountState {
    type V = IntroRecord;

    open spec fn view(&self) -> IntroRecord {
        IntroRecord {
            discriminator: self.discriminator@,
            is_initialized: self.is_initialized,
            introducer: self.introducer@,
            name: self.name@,
            message: self.message@,
        }
    }
}

/// Copies `bytes` over the front of `data` and leaves the rest as it was.
pub fn overwrite_front(data: &mut Vec<u8>, bytes: &Vec<u8>)
    requires
        bytes.len() <= old(data).len(),
    ensures
        final(data)@ == bytes@ + old(data)@.skip(bytes.len() as int),
{
    let ghost before = data@;
    let mut i: usize = 0;
    while i < bytes.len()
        invariant
            i <= bytes.len() <= data.len(),
            data.len() == before.len(),
            forall|j: int| 0 <= j < i ==> data@[j] == bytes@[j],
            forall|j: int| i <= j < data.len() ==> data@[j] == before[j],
        decreases bytes.len() - i,
    {
        data[i] = bytes[i];
        i += 1;
    }
    assert(data@ =~= bytes@ + before.skip(bytes.len() as int));
}

impl IntroAccountState {
    pub const DISCRIMINATOR: &'static str = "intro";

    /// Size that the encoding of an introduction with this name and message
    /// has, to be held against the capacity before anything is stored.
    pub fn get_account_size(name: String, message: String) -> (size: usize)
        requires
            intro_size(name@, message@) <= usize::MAX,
        ensures
            size == intro_size(name@, message@),
    {
        (4 + 5) + 1 + 32 + (4 + text_len(name.as_str())) + (4 + text_len(message.as_str()))
    }

    /// Whether the record was ever written.
    pub fn is_initialized(&self) -> (flag: bool)
        ensures
            flag == self@.is_initialized,
    {
        self.is_initialized
    }

    /// The bytes that stand for the record. Fails with `RecordTooLarge` when
    /// a text is too long for its length prefix, and only then.
    pub fn encode(&self) -> (r: Result<Vec<u8>, IntroError>)
        ensures
            match r {
                Ok(bytes) => self@.encodable() && bytes@ == self@.encoding(),
                Err(e) => !self@.encodable() && e == IntroError::RecordTooLarge,
            },
    {
        let limit: usize = u32::MAX as usize;
        if text_len(self.discriminator.as_str()) > limit || text_len(self.name.as_str()) > limit
            || text_len(self.message.as_str()) > limit {
            return Err(IntroError::RecordTooLarge);
        }
        let mut out: Vec<u8> = Vec::new();
        put_text(&mut out, self.discriminator.as_str());
        put_bool(&mut out, self.is_initialized);
        put_bytes(&mut out, self.introducer.bytes.as_slice());
        put_text(&mut out, self.name.as_str());
        put_text(&mut out, self.message.as_str());
        assert(out@ =~= self@.encoding());
        Ok(out)
    }

    /// Reads the record at the front of `data`; bytes behind it are ignored.
    /// Fails with `DataCorruption` when the front of `data` spells no record,
    /// and only then.
    pub fn decode(data: &[u8]) -> (r: Result<IntroAccountState, IntroError>)
        ensures
            match IntroRecord::decoding(data@) {
                Some(record) => r matches Ok(state) && state@ == record,
                None => r matches Err(e) && e == IntroError::DataCorruption,
            },
    {
        let (discriminator, p1) = match read_text(data, 0) {
            Some(found) => found,
            None => {
                return Err(IntroError::DataCorruption);
            },
        };
        let (is_initialized, p2) = match read_bool(data, p1) {
            Some(found) => found,
            None => {
                return Err(IntroError::DataCorruption);
            },
        };
        let (introducer, p3) = match read_address(data, p2) {
            Some(found) => found,
            None => {
                return Err(IntroError::DataCorruption);
            },
        };
        let (name, p4) = match read_text(data, p3) {
            Some(found) => found,
            None => {
                return Err(IntroError::DataCorruption);
            },
        };
        let (message, _) = match read_text(data, p4) {
            Some(found) => found,
            None => {
                return Err(IntroError::DataCorruption);
            },
        };
        Ok(
            IntroAccountState {
                discriminator,
                is_initialized,
                introducer: Address::new(introducer),
                name,
                message,
            },
        )
    }

    /// Writes the record over the front of `data`, which keeps its length and
    /// the bytes behind the record. Fails with `RecordTooLarge`, and leaves
    /// `data` alone, when the encoding is longer than `data` or cannot be
    /// made.
    pub fn store(&self, data: &mut Vec<u8>) -> (r: Result<(), IntroError>)
        ensures
            r is Ok <==> self@.encodable() && self@.size() <= old(data)@.len(),
            r is Ok ==> final(data)@ == self@.encoding() + old(data)@.skip(self@.size() as int),
            r is Ok ==> IntroRecord::decoding(final(data)@) == Some(self@),
            r is Err ==> r == Err::<(), IntroError>(IntroError::RecordTooLarge) && *final(data)
                == *old(data),
    {
        let bytes = match self.encode() {
            Ok(bytes) => bytes,
            Err(e) => {
                return Err(e);
            },
        };
        if bytes.len() > data.len() {
            return Err(IntroError::RecordTooLarge);
        }
        proof {
            self@.lemma_decode_encoding(data@.skip(bytes.len() as int));
        }
        overwrite_front(data, &bytes);
        Ok(())
    }
}

/// A reply counter, as a mathematical value.
pub struct ReplyCounterRecord {
    pub discriminator: Seq<char>,
    pub is_initialized: bool,
    pub counter: u64,
}

impl ReplyCounterRecord {
    /// Whether the record can be written down.
    pub open spec fn encodable(self) -> bool {
        text_fits(self.discriminator)
    }

    /// The bytes that stand for the record.
    pub open spec fn encoding(self) -> Seq<u8> {
        text_bytes(self.discriminator) + bool_byte(self.is_initialized) + u64_le(self.counter)
    }

    /// Number of bytes of the encoding.
    pub open spec fn size(self) -> nat {
        text_size(self.discriminator) + 1 + 8
    }

    /// The record that the front of `b` spells, if it spells one.
    pub open spec fn decoding(b: Seq<u8>) -> Option<ReplyCounterRecord> {
        match text_at(b, 0) {
            Some((discriminator, p1)) => match bool_at(b, p1) {
                Some((is_initialized, p2)) => match u64_at(b, p2) {
                    Some((counter, _)) => Some(
                        ReplyCounterRecord { discriminator, is_initialized, counter },
                    ),
                    None => None,
                },
                None => None,
            },
            None => None,
        }
    }

    /// The record that fresh storage spells.
    pub open spec fn blank() -> ReplyCounterRecord {
        ReplyCounterRecord { discriminator: Seq::empty(), is_initialized: false, counter: 0 }
    }

    /// The counter of the introduction that has `counter` replies.
    pub open spec fn counting(counter: u64) -> ReplyCounterRecord {
        ReplyCounterRecord { discriminator: counter_tag(), is_initialized: true, counter }
    }

    /// Decoding undoes encoding, whatever follows the record in the buffer.
    pub proof fn lemma_decode_encoding(self, tail: Seq<u8>)
        requires
            self.encodable(),
        ensures
            ReplyCounterRecord::decoding(self.encoding() + tail) == Some(self),
            self.encoding().len() == self.size(),
    {
        let b = self.encoding() + tail;
        let e1 = text_bytes(self.discriminator);
        let p1: int = e1.len() as int;
        assert(b.subrange(0, p1) =~= e1);
        assert(b.subrange(p1, p1 + 1) =~= bool_byte(self.is_initialized));
        assert(b.subrange(p1 + 1, p1 + 9) =~= u64_le(self.counter));
        lemma_text_read_back(b, 0, self.discriminator);
        lemma_bool_read_back(b, p1, self.is_initialized);
        lemma_u64_read_back(b, p1 + 1, self.counter);
    }

    /// Fresh storage of at least thirteen bytes spells the blank record.
    pub proof fn lemma_fresh_storage(n: nat)
        requires
            n >= 13,
        ensures
            ReplyCounterRecord::decoding(zeros(n)) == Some(ReplyCounterRecord::blank()),
    {
        let b = zeros(n);
        assert(b.subrange(4, 4) =~= Seq::<u8>::empty());
        assert(decode_utf8(Seq::<u8>::empty()) =~= Seq::<char>::empty());
        assert(text_at(b, 0) == Some((Seq::<char>::empty(), 4int)));
        assert(bool_at(b, 4) == Some((false, 5int)));
        assert(u64_at(b, 5) == Some((0u64, 13int)));
    }

    /// A counter under its own discriminator takes twenty bytes.
    pub proof fn lemma_counting_size(counter: u64)
        ensures
            ReplyCounterRecord::counting(counter).encodable(),
            ReplyCounterRecord::counting(counter).size() == IntroReplyCounter::SIZE,
    {
        lemma_tag_sizes();
    }
}

/// The counter of the replies made to one introduction.
pub struct IntroReplyCounter {
    pub discriminator: String,
    pub is_initialized: bool,
    pub counter: u64,
}

impl View for IntroReplyCounter {
    type V = ReplyCounterRecord;

    open spec fn view(&self) -> ReplyCounterRecord {
        ReplyCounterRecord {
            discriminator: self.discriminator@,
            is_initialized: self.is_initialized,
            counter: self.counter,
        }
    }
}

impl IntroReplyCounter {
    pub const DISCRIMINATOR: &'static str = "counter";

    /// Size of the encoding of a counter, which is also the capacity of its
    /// storage: the discriminator with its prefix, the flag, the number.
    pub const SIZE: usize = (4 + 7) + 1 + 8;

    /// Whether the record was ever written.
    pub fn is_initialized(&self) -> (flag: bool)
        ensures
            flag == self@.is_initialized,
    {
        self.is_initialized
    }

    /// The bytes that stand for the record. Fails with `RecordTooLarge` when
    /// the discriminator is too long for its length prefix, and only then.
    pub fn encode(&self) -> (r: Result<Vec<u8>, IntroError>)
        ensures
            match r {
                Ok(bytes) => self@.encodable() && bytes@ == self@.encoding(),
                Err(e) => !self@.encodable() && e == IntroError::RecordTooLarge,
            },
    {
        let limit: usize = u32::MAX as usize;
        if text_len(self.discriminator.as_str()) > limit {
            return Err(IntroError::RecordTooLarge);
        }
        let mut out: Vec<u8> = Vec::new();
        put_text(&mut out, self.discriminator.as_str());
        put_bool(&mut out, self.is_initialized);
        put_u64(&mut out, self.counter);
        assert(out@ =~= self@.encoding());
        Ok(out)
    }

    /// Reads the record at the front of `data`; bytes behind it are ignored.
    /// Fails with `DataCorruption` when the front of `data` spells no record,
    /// and only then.
    pub fn decode(data: &[u8]) -> (r: Result<IntroReplyCounter, IntroError>)
        ensures
            match ReplyCounterRecord::decoding(data@) {
                Some(record) => r matches Ok(state) && state@ == record,
                None => r matches Err(e) && e == IntroError::DataCorruption,
            },
    {
        let (discriminator, p1) = match read_text(data, 0) {
            Some(found) => found,
            None => {
                return Err(IntroError::DataCorruption);
            },
        };
        let (is_initialized, p2) = match read_bool(data, p1) {
            Some(found) => found,
            None => {
                return Err(IntroError::DataCorruption);
            },
        };
        let (counter, _) = match read_u64(data, p2) {
            Some(found) => found,
            None => {
                return Err(IntroError::DataCorruption);
            },
        };
        Ok(IntroReplyCounter { discriminator, is_initialized, counter })
    }

    /// Writes the record over the front of `data`, which keeps its length and
    /// the bytes behind the record. Fails with `RecordTooLarge`, and leaves
    /// `data` alone, when the encoding is longer than `data` or cannot be
    /// made.
    pub fn store(&self, data: &mut Vec<u8>) -> (r: Result<(), IntroError>)
        ensures
            r is Ok <==> self@.encodable() && self@.size() <= old(data)@.len(),
            r is Ok ==> final(data)@ == self@.encoding() + old(data)@.skip(self@.size() as int),
            r is Ok ==> ReplyCounterRecord::decoding(final(data)@) == Some(self@),
            r is Err ==> r == Err::<(), IntroError>(IntroError::RecordTooLarge) && *final(data)
                == *old(data),
    {
        let bytes = match self.encode() {
            Ok(bytes) => bytes,
            Err(e) => {
                return Err(e);
            },
        };
        if bytes.len() > data.len() {
            return Err(IntroError::RecordTooLarge);
        }
        proof {
            self@.lemma_decode_encoding(data@.skip(bytes.len() as int));
        }
        overwrite_front(data, &bytes);
        Ok(())
    }
}

/// A reply, as a mathematical value.
pub struct ReplyRecord {
    pub discriminator: Seq<char>,
    pub is_initialized: bool,
    pub intro: Seq<u8>,
    pub replier: Seq<u8>,
    pub reply: Seq<char>,
    pub count: u64,
}

/// Size of the encoding of a reply with this text: the discriminator with its
/// prefix, the flag, two addresses, the text with its prefix, the count.
pub open spec fn reply_size(reply: Seq<char>) -> nat {
    (4 + 5) + 1 + 32 + 32 + text_size(reply) + 8
}

impl ReplyRecord {
    /// Whether the record can be written down.
    pub open spec fn encodable(self) -> bool {
        &&& text_fits(self.discriminator)
        &&& text_fits(self.reply)
        &&& self.intro.len() == 32
        &&& self.replier.len() == 32
    }

    /// The bytes that stand for the record.
    pub open spec fn encoding(self) -> Seq<u8> {
        text_bytes(self.discriminator) + bool_byte(self.is_initialized) + self.intro
            + self.replier + text_bytes(self.reply) + u64_le(self.count)
    }

    /// Number of bytes of the encoding.
    pub open spec fn size(self) -> nat {
        text_size(self.discriminator) + 1 + 32 + 32 + text_size(self.reply) + 8
    }

    /// The record that the front of `b` spells, if it spells one.
    pub open spec fn decoding(b: Seq<u8>) -> Option<ReplyRecord> {
        match text_at(b, 0) {
            Some((discriminator, p1)) => match bool_at(b, p1) {
                Some((is_initialized, p2)) => match address_at(b, p2) {
                    Some((intro, p3)) => match address_at(b, p3) {
                        Some((replier, p4)) => match text_at(b, p4) {
                            Some((reply, p5)) => match u64_at(b, p5) {
                                Some((count, _)) => Some(
                                    ReplyRecord {
                                        discriminator,
                                        is_initialized,
                                        intro,
                                        replier,
                                        reply,
                                        count,
                                    },
                                ),
                                None => None,
                            },
                            None => None,
                        },
                        None => None,
                    },
                    None => None,
                },
                None => None,
            },
            None => None,
        }
    }

    /// The record that fresh storage spells.
    pub open spec fn blank() -> ReplyRecord {
        ReplyRecord {
            discriminator: Seq::empty(),
            is_initialized: false,
            intro: zeros(32),
            replier: zeros(32),
            reply: Seq::empty(),
            count: 0,
        }
    }

    /// Decoding undoes encoding, whatever follows the record in the buffer.
    pub proof fn lemma_decode_encoding(self, tail: Seq<u8>)
        requires
            self.encodable(),
        ensures
            ReplyRecord::decoding(self.encoding() + tail) == Some(self),
            self.encoding().len() == self.size(),
    {
        let b = self.encoding() + tail;
        let e1 = text_bytes(self.discriminator);
        let e5 = text_bytes(self.reply);
        let p1: int = e1.len() as int;
        let p2: int = p1 + 1;
        let p3: int = p2 + 32;
        let p4: int = p3 + 32;
        let p5: int = p4 + e5.len();
        assert(b.subrange(0, p1) =~= e1);
        assert(b.subrange(p1, p2) =~= bool_byte(self.is_initialized));
        assert(b.subrange(p2, p3) =~= self.intro);
        assert(b.subrange(p3, p4) =~= self.replier);
        assert(b.subrange(p4, p5) =~= e5);
        assert(b.subrange(p5, p5 + 8) =~= u64_le(self.count));
        lemma_text_read_back(b, 0, self.discriminator);
        lemma_bool_read_back(b, p1, self.is_initialized);
        lemma_address_read_back(b, p2, self.intro);
        lemma_address_read_back(b, p3, self.replier);
        lemma_text_read_back(b, p4, self.reply);
        lemma_u64_read_back(b, p5, self.count);
    }

    /// Fresh storage of at least eighty-one bytes spells the blank record.
    pub proof fn lemma_fresh_storage(n: nat)
        requires
            n >= 81,
        ensures
            ReplyRecord::decoding(zeros(n)) == Some(ReplyRecord::blank()),
    {
        let b = zeros(n);
        assert(b.subrange(4, 4) =~= Seq::<u8>::empty());
        assert(b.subrange(73, 73) =~= Seq::<u8>::empty());
        assert(b.subrange(5, 37) =~= zeros(32));
        assert(b.subrange(37, 69) =~= zeros(32));
        assert(decode_utf8(Seq::<u8>::empty()) =~= Seq::<char>::empty());
        assert(text_at(b, 0) == Some((Seq::<char>::empty(), 4int)));
        assert(bool_at(b, 4) == Some((false, 5int)));
        assert(address_at(b, 5) == Some((zeros(32), 37int)));
        assert(address_at(b, 37) == Some((zeros(32), 69int)));
        assert(text_at(b, 69) == Some((Seq::<char>::empty(), 73int)));
        assert(u64_at(b, 73) == Some((0u64, 81int)));
    }
}

/// A reply to an introduction: who made it, what it says, and which reply to
/// that introduction it is, counted from one.
pub struct IntroReply {
    pub discriminator: String,
    pub is_initialized: bool,
    pub intro: Address,
    pub replier: Address,
    pub reply: String,
    pub count: u64,
}

impl View for IntroReply {
    type V = ReplyRecord;

    open spec fn view(&self) -> ReplyRecord {
        ReplyRecord {
            discriminator: self.discriminator@,
            is_initialized: self.is_initialized,
            intro: self.intro@,
            replier: self.replier@,
            reply: self.reply@,
            count: self.count,
        }
    }
}

impl IntroReply {
    pub const DISCRIMINATOR: &'static str = "reply";

    /// Size that the encoding of a reply with this text has, to be held
    /// against the capacity before anything is stored.
    pub fn get_account_size(reply: String) -> (size: usize)
        requires
            reply_size(reply@) <= usize::MAX,
        ensures
            size == reply_size(reply@),
    {
        (4 + 5) + 1 + 32 + 32 + (4 + text_len(reply.as_str())) + 8
    }

    /// Whether the record was ever written.
    pub fn is_initialized(&self) -> (flag: bool)
        ensures
            flag == self@.is_initialized,
    {
        self.is_initialized
    }

    /// The bytes that stand for the record. Fails with `RecordTooLarge` when
    /// a text is too long for its length prefix, and only then.
    pub fn encode(&self) -> (r: Result<Vec<u8>, IntroError>)
        ensures
            match r {
                Ok(bytes) => self@.encodable() && bytes@ == self@.encoding(),
                Err(e) => !self@.encodable() && e == IntroError::RecordTooLarge,
            },
    {
        let limit: usize = u32::MAX as usize;
        if text_len(self.discriminator.as_str()) > limit || text_len(self.reply.as_str()) > limit {
            return Err(IntroError::RecordTooLarge);
        }
        let mut out: Vec<u8> = Vec::new();
        put_text(&mut out, self.discriminator.as_str());
        put_bool(&mut out, self.is_initialized);
        put_bytes(&mut out, self.intro.bytes.as_slice());
        put_bytes(&mut out, self.replier.bytes.as_slice());
        put_text(&mut out, self.reply.as_str());
        put_u64(&mut out, self.count);
        assert(out@ =~= self@.encoding());
        Ok(out)
    }

    /// Reads the record at the front of `data`; bytes behind it are ignored.
    /// Fails with `DataCorruption` when the front of `data` spells no record,
    /// and only then.
    pub fn decode(data: &[u8]) -> (r: Result<IntroReply, IntroError>)
        ensures
            match ReplyRecord::decoding(data@) {
                Some(record) => r matches Ok(state) && state@ == record,
                None => r matches Err(e) && e == IntroError::DataCorruption,
            },
    {
        let (discriminator, p1) = match read_text(data, 0) {
            Some(found) => found,
            None => {
                return Err(IntroError::DataCorruption);
            },
        };
        let (is_initialized, p2) = match read_bool(data, p1) {
            Some(found) => found,
            None => {
                return Err(IntroError::DataCorruption);
            },
        };
        let (intro, p3) = match read_address(data, p2) {
            Some(found) => found,
            None => {
                return Err(IntroError::DataCorruption);
            },
        };
        let (replier, p4) = match read_address(data, p3) {
            Some(found) => found,
            None => {
                return Err(IntroError::DataCorruption);
            },
        };
        let (reply, p5) = match read_text(data, p4) {
            Some(found) => found,
            None => {
                return Err(IntroError::DataCorruption);
            },
        };
        let (count, _) = match read_u64(data, p5) {
            Some(found) => found,
            None => {
                return Err(IntroError::DataCorruption);
            },
        };
        Ok(
            IntroReply {
                discriminator,
                is_initialized,
                intro: Address::new(intro),
                replier: Address::new(replier),
                reply,
                count,
            },
        )
    }

    /// Writes the record over the front of `data`, which keeps its length and
    /// the bytes behind the record. Fails with `RecordTooLarge`, and leaves
    /// `data` alone, when the encoding is longer than `data` or cannot be
    /// made.
    pub fn store(&self, data: &mut Vec<u8>) -> (r: Result<(), IntroError>)
        ensures
            r is Ok <==> self@.encodable() && self@.size() <= old(data)@.len(),
            r is Ok ==> final(data)@ == self@.encoding() + old(data)@.skip(self@.size() as int),
            r is Ok ==> ReplyRecord::decoding(final(data)@) == Some(self@),
            r is Err ==> r == Err::<(), IntroError>(IntroError::RecordTooLarge) && *final(data)
                == *old(data),
    {
        let bytes = match self.encode() {
            Ok(bytes) => bytes,
            Err(e) => {
                return Err(e);
            },
        };
        if bytes.len() > data.len() {
            return Err(IntroError::RecordTooLarge);
        }
        proof {
            self@.lemma_decode_encoding(data@.skip(bytes.len() as int));
        }
        overwrite_front(data, &bytes);
        Ok(())
    }
}

/// Whether the texts of an introduction are too long for its storage. The
/// lengths are looked at one by one first, so that their sum is only formed
/// when it is small.
pub fn intro_too_large(name: &String, message: &String) -> (too_large: bool)
    ensures
        too_large == (intro_size(name@, message@) > RECORD_CAPACITY),
{
    if text_len(name.as_str()) > RECORD_CAPACITY || text_len(message.as_str()) > RECORD_CAPACITY {
        return true;
    }
    IntroAccountState::get_account_size(name.clone(), message.clone()) > RECORD_CAPACITY
}

/// Whether the text of a reply is too long for its storage.
pub fn reply_too_large(reply: &String) -> (too_large: bool)
    ensures
        too_large == (reply_size(reply@) > RECORD_CAPACITY),
{
    if text_len(reply.as_str()) > RECORD_CAPACITY {
        return true;
    }
    IntroReply::get_account_size(reply.clone()) > RECORD_CAPACITY
}

/// A counter that was read from a buffer can be written back into it with
/// another number: its discriminator is as long as it was.
pub proof fn lemma_decoded_counter_fits(b: Seq<u8>)
    requires
        ReplyCounterRecord::decoding(b) is Some,
    ensures
        ReplyCounterRecord::decoding(b).unwrap().encodable(),
        ReplyCounterRecord::decoding(b).unwrap().size() <= b.len(),
{
    let n = u32_from_le(b.subrange(0, 4));
    decode_utf8_encode_utf8(b.subrange(4, 4 + n));
}

} // verus!
