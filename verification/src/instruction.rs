//! Requests as they arrive: one byte that selects the operation, then the
//! texts the operation takes, each as a text field.

use crate::error::IntroError;
use crate::wire::{lemma_text_read_back, read_text, text_at, text_bytes, text_fits, text_size};
use vstd::prelude::*;

verus! {

/// A request, decoded.
pub enum IntroInstruction {
    AddIntro { name: String, message: String },
    UpdateIntro { name: String, message: String },
    AddReply { reply: String },
    InitializeMint,
}

/// A request, as a mathematical value.
pub enum Request {
    AddIntro { name: Seq<char>, message: Seq<char> },
    UpdateIntro { name: Seq<char>, message: Seq<char> },
    AddReply { reply: Seq<char> },
    InitializeMint,
}

impl View for IntroInstruction {
    type V = Request;

    open spec fn view(&self) -> Request {
        match *self {
            IntroInstruction::AddIntro { name, message } => Request::AddIntro {
                name: name@,
                message: message@,
            },
            IntroInstruction::UpdateIntro { name, message } => Request::UpdateIntro {
                name: name@,
                message: message@,
            },
            IntroInstruction::AddReply { reply } => Request::AddReply { reply: reply@ },
            IntroInstruction::InitializeMint => Request::InitializeMint,
        }
    }
}

/// The name and the message that fill `input` from position 1 to its end.
pub open spec fn two_texts(input: Seq<u8>) -> Option<(Seq<char>, Seq<char>)> {
    match text_at(input, 1) {
        Some((name, p)) => match text_at(input, p) {
            Some((message, end)) => if end == input.len() {
                Some((name, message))
            } else {
                None
            },
            None => None,
        },
        None => None,
    }
}

/// The one text that fills `input` from position 1 to its end.
pub open spec fn one_text(input: Seq<u8>) -> Option<Seq<char>> {
    match text_at(input, 1) {
        Some((reply, end)) => if end == input.len() {
            Some(reply)
        } else {
            None
        },
        None => None,
    }
}

impl Request {
    /// The request that `input` spells, if it spells one: the tag byte, then
    /// the texts of that operation and nothing behind them. What follows the
    /// tag of `InitializeMint`, which takes no text, is not looked at.
    pub open spec fn decoding(input: Seq<u8>) -> Option<Request> {
        if input.len() == 0 {
            None
        } else if input[0] == 0 {
            match two_texts(input) {
                Some((name, message)) => Some(Request::AddIntro { name, message }),
                None => None,
            }
        } else if input[0] == 1 {
            match two_texts(input) {
                Some((name, message)) => Some(Request::UpdateIntro { name, message }),
                None => None,
            }
        } else if input[0] == 2 {
            match one_text(input) {
                Some(reply) => Some(Request::AddReply { reply }),
                None => None,
            }
        } else if input[0] == 3 {
            Some(Request::InitializeMint)
        } else {
            None
        }
    }

    /// Whether each text is short enough for a length prefix.
    pub open spec fn encodable(self) -> bool {
        match self {
            Request::AddIntro { name, message } => text_fits(name) && text_fits(message),
            Request::UpdateIntro { name, message } => text_fits(name) && text_fits(message),
            Request::AddReply { reply } => text_fits(reply),
            Request::InitializeMint => true,
        }
    }

    /// The bytes that spell the request.
    pub open spec fn encoding(self) -> Seq<u8> {
        match self {
            Request::AddIntro { name, message } => seq![0u8] + text_bytes(name) + text_bytes(
                message,
            ),
            Request::UpdateIntro { name, message } => seq![1u8] + text_bytes(name) + text_bytes(
                message,
            ),
            Request::AddReply { reply } => seq![2u8] + text_bytes(reply),
            Request::InitializeMint => seq![3u8],
        }
    }

    /// Decoding undoes encoding.
    pub proof fn lemma_decode_encoding(self)
        requires
            self.encodable(),
        ensures
            Request::decoding(self.encoding()) == Some(self),
    {
        let b = self.encoding();
        match self {
            Request::AddIntro { name, message } => {
                assert(b.subrange(1, b.len() as int) =~= text_bytes(name) + text_bytes(message));
                Self::lemma_two_texts(b, name, message);
            },
            Request::UpdateIntro { name, message } => {
                assert(b.subrange(1, b.len() as int) =~= text_bytes(name) + text_bytes(message));
                Self::lemma_two_texts(b, name, message);
            },
            Request::AddReply { reply } => {
                let end: int = 1 + text_size(reply) as int;
                assert(b.subrange(1, end) =~= text_bytes(reply));
                lemma_text_read_back(b, 1, reply);
            },
            Request::InitializeMint => {},
        }
    }

    proof fn lemma_two_texts(b: Seq<u8>, name: Seq<char>, message: Seq<char>)
        requires
            text_fits(name),
            text_fits(message),
            b.len() > 0,
            b.subrange(1, b.len() as int) == text_bytes(name) + text_bytes(message),
        ensures
            two_texts(b) == Some((name, message)),
    {
        let rest = text_bytes(name) + text_bytes(message);
        let p: int = 1 + text_size(name) as int;
        let end: int = p + text_size(message) as int;
        assert(b.len() == 1 + rest.len());
        assert(b.subrange(1, p) =~= rest.subrange(0, p - 1));
        assert(rest.subrange(0, p - 1) =~= text_bytes(name));
        assert(b.subrange(p, end) =~= rest.subrange(p - 1, end - 1));
        assert(rest.subrange(p - 1, end - 1) =~= text_bytes(message));
        lemma_text_read_back(b, 1, name);
        lemma_text_read_back(b, p, message);
    }
}

/// Reads the name and the message that fill `input` behind the tag byte.
fn read_two_texts(input: &[u8]) -> (r: Option<(String, String)>)
    ensures
        match two_texts(input@) {
            Some((name, message)) => r matches Some((n, m)) && n@ == name && m@ == message,
            None => r is None,
        },
{
    let (name, p) = match read_text(input, 1) {
        Some(found) => found,
        None => {
            return None;
        },
    };
    let (message, end) = match read_text(input, p) {
        Some(found) => found,
        None => {
            return None;
        },
    };
    if end != input.len() {
        return None;
    }
    Some((name, message))
}

impl IntroInstruction {
    /// Decodes a request. Fails with `MalformedRequest` when `input` spells
    /// no request, and only then.
    pub fn unpack(input: &[u8]) -> (r: Result<IntroInstruction, IntroError>)
        ensures
            match Request::decoding(input@) {
                Some(request) => r matches Ok(instruction) && instruction@ == request,
                None => r matches Err(e) && e == IntroError::MalformedRequest,
            },
    {
        if input.len() == 0 {
            return Err(IntroError::MalformedRequest);
        }
        let variant: u8 = input[0];
        if variant == 0 {
            match read_two_texts(input) {
                Some((name, message)) => Ok(IntroInstruction::AddIntro { name, message }),
                None => Err(IntroError::MalformedRequest),
            }
        } else if variant == 1 {
            match read_two_texts(input) {
                Some((name, message)) => Ok(IntroInstruction::UpdateIntro { name, message }),
                None => Err(IntroError::MalformedRequest),
            }
        } else if variant == 2 {
            match read_text(input, 1) {
                Some((reply, end)) => {
                    if end == input.len() {
                        Ok(IntroInstruction::AddReply { reply })
                    } else {
                        Err(IntroError::MalformedRequest)
                    }
                },
                None => Err(IntroError::MalformedRequest),
            }
        } else if variant == 3 {
            Ok(IntroInstruction::InitializeMint)
        } else {
            Err(IntroError::MalformedRequest)
        }
    }
}

} // verus!
