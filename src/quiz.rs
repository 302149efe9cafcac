//! Questions and the messages that carry them and their answers.
use vstd::prelude::*;
use crate::frame::{decode_client_frame, decode_spec, encode_text_frame, text_frame, Opcode};

verus! {

/// One quiz question.
pub struct Question {
    /// Its position in the quiz, from 0.
    pub id: u8,
    /// The index of the right choice.
    pub correct_answer_index: u8,
    /// The question followed by its choices, one per line.
    pub text: Vec<u8>,
}

/// What a client sent during a round.
#[derive(Clone, Copy, Debug, PartialEq, Eq, Structural)]
pub enum ClientMessage {
    /// An answer: the question id and the chosen index.
    Answer(u8, u8),
    /// The client closed its side of the connection.
    Close,
    /// Anything else: a malformed or unsupported frame, or a text of the wrong size.
    Invalid,
}

/// The byte that stands for the number `n` on the wire: its ASCII digit, counted on modulo 256.
pub open spec fn digit_byte(n: u8) -> u8 {
    if n < 208 {
        (n + 48) as u8
    } else {
        (n - 208) as u8
    }
}

/// The number that a byte on the wire stands for; the inverse of `digit_byte`.
pub open spec fn digit_value(b: u8) -> u8 {
    if b >= 48 {
        (b - 48) as u8
    } else {
        (b + 208) as u8
    }
}

/// The payload of a question's frame: its id digit, a newline, and its text.
pub open spec fn question_payload(id: u8, text: Seq<u8>) -> Seq<u8> {
    seq![digit_byte(id), 10u8] + text
}

/// How the server reads a client's frame.
pub open spec fn message_spec(raw: Seq<u8>) -> ClientMessage {
    match decode_spec(raw) {
        Ok((Opcode::Text, p)) => if p.len() == 2 {
            ClientMessage::Answer(digit_value(p[0]), digit_value(p[1]))
        } else {
            ClientMessage::Invalid
        },
        Ok((Opcode::Close, _)) => ClientMessage::Close,
        Err(_) => ClientMessage::Invalid,
    }
}

fn to_digit_byte(n: u8) -> (r: u8)
    ensures
        r == digit_byte(n),
{
    if n < 208 {
        n + 48
    } else {
        n - 208
    }
}

fn from_digit_byte(b: u8) -> (r: u8)
    ensures
        r == digit_value(b),
{
    if b >= 48 {
        b - 48
    } else {
        b + 208
    }
}

/// The frame that broadcasts `q`.
pub fn question_frame(q: &Question) -> (r: Vec<u8>)
    ensures
        r@ == text_frame(question_payload(q.id, q.text@)),
{
    let mut payload: Vec<u8> = Vec::with_capacity(2);
    payload.push(to_digit_byte(q.id));
    payload.push(10u8);
    let mut i: usize = 0;
    while i < q.text.len()
        invariant
            i <= q.text@.len(),
            payload@ == seq![digit_byte(q.id), 10u8] + q.text@.subrange(0, i as int),
        decreases q.text@.len() - i,
    {
        payload.push(q.text[i]);
        i = i + 1;
        assert(payload@ =~= seq![digit_byte(q.id), 10u8] + q.text@.subrange(0, i as int));
    }
    assert(q.text@.subrange(0, q.text@.len() as int) =~= q.text@);
    encode_text_frame(payload.as_slice())
}

/// Reads a client's frame as an answer, a close, or nothing usable.
pub fn parse_client_message(raw: &[u8]) -> (r: ClientMessage)
    ensures
        r == message_spec(raw@),
{
    match decode_client_frame(raw) {
        Ok(f) => match f.opcode {
            Opcode::Text => {
                if f.payload.len() == 2 {
                    ClientMessage::Answer(from_digit_byte(f.payload[0]), from_digit_byte(f.payload[1]))
                } else {
                    ClientMessage::Invalid
                }
            },
            Opcode::Close => ClientMessage::Close,
        },
        Err(_) => ClientMessage::Invalid,
    }
}

/// Why a quiz could not be read.
#[derive(Clone, Copy, Debug, PartialEq, Eq, Structural)]
pub enum QuizError {
    /// A question block is empty: it has no answer byte.
    EmptyQuestion,
    /// More questions than ids.
    TooManyQuestions,
}

/// The blocks of `s` that separators (two newlines in a row) delimit, scanning from `i` with the
/// current block starting at `start`; the same split as `str::split("\n\n")`.
pub open spec fn blocks_from(s: Seq<u8>, start: int, i: int) -> Seq<Seq<u8>>
    decreases s.len() - i,
{
    if i + 1 >= s.len() {
        seq![s.subrange(start, s.len() as int)]
    } else if s[i] == 10 && s[i + 1] == 10 {
        seq![s.subrange(start, i)] + blocks_from(s, i + 2, i + 2)
    } else {
        blocks_from(s, start, i + 1)
    }
}

/// The question blocks of a quiz file.
pub open spec fn quiz_blocks(s: Seq<u8>) -> Seq<Seq<u8>> {
    blocks_from(s, 0, 0)
}

/// Question `k` of a quiz is read from block `b`: its first byte is the digit of the right
/// choice, the rest is the text.
pub open spec fn question_from_block(q: Question, k: int, b: Seq<u8>) -> bool {
    &&& q.id as int == k
    &&& q.correct_answer_index == digit_value(b[0])
    &&& q.text@ == b.subrange(1, b.len() as int)
}

fn question_at(s: &[u8], start: usize, end: usize, id: u8) -> (q: Question)
    requires
        start < end <= s@.len(),
    ensures
        question_from_block(q, id as int, s@.subrange(start as int, end as int)),
{
    let mut text: Vec<u8> = Vec::with_capacity(end - start);
    let mut i: usize = start + 1;
    while i < end
        invariant
            start < i <= end <= s@.len(),
            text@ == s@.subrange(start + 1, i as int),
        decreases end - i,
    {
        text.push(s[i]);
        i = i + 1;
        assert(text@ =~= s@.subrange(start + 1, i as int));
    }
    assert(text@ =~= s@.subrange(start as int, end as int).subrange(1, (end - start) as int));
    Question { id, correct_answer_index: from_digit_byte(s[start]), text }
}

/// Reads a quiz: questions separated by blank lines, each starting with the digit of its right
/// choice. Question ids follow the order of the file from 0.
pub fn parse_quiz(contents: &[u8]) -> (r: Result<Vec<Question>, QuizError>)
    ensures
        ({
            let b = quiz_blocks(contents@);
            match r {
                Ok(qs) => {
                    &&& b.len() <= 256
                    &&& forall|k: int| 0 <= k < b.len() ==> (#[trigger] b[k]).len() > 0
                    &&& qs@.len() == b.len()
                    &&& forall|k: int| 0 <= k < b.len() ==> question_from_block(#[trigger] qs@[k], k, b[k])
                },
                Err(QuizError::EmptyQuestion) => exists|k: int|
                    0 <= k < b.len() && k < 256 && (#[trigger] b[k]).len() == 0,
                Err(QuizError::TooManyQuestions) => {
                    &&& b.len() > 256
                    &&& forall|k: int| 0 <= k < 256 ==> (#[trigger] b[k]).len() > 0
                },
            }
        }),
{
    let len: usize = contents.len();
    let ghost b = quiz_blocks(contents@);
    let ghost mut done: Seq<Seq<u8>> = Seq::empty();
    let mut qs: Vec<Question> = Vec::new();
    let mut start: usize = 0;
    let mut i: usize = 0;
    while len > 0 && i < len - 1
        invariant
            len == contents@.len(),
            start <= i <= len,
            b == quiz_blocks(contents@),
            b == done + blocks_from(contents@, start as int, i as int),
            done.len() == qs@.len() <= 256,
            forall|k: int| 0 <= k < done.len() ==> (#[trigger] done[k]).len() > 0,
            forall|k: int| 0 <= k < done.len() ==> question_from_block(#[trigger] qs@[k], k, done[k]),
        decreases len - i,
    {
        if contents[i] == 10 && contents[i + 1] == 10 {
            let ghost blk = contents@.subrange(start as int, i as int);
            let ghost rest = blocks_from(contents@, (i + 2) as int, (i + 2) as int);
            assert(b == done + (seq![blk] + rest));
            assert(b[done.len() as int] == blk);
            if qs.len() == 256 {
                assert forall|k: int| 0 <= k < 256 implies (#[trigger] b[k]).len() > 0 by {
                    assert(b[k] == done[k]);
                }
                return Err(QuizError::TooManyQuestions);
            }
            if start == i {
                assert(b[done.len() as int].len() == 0);
                return Err(QuizError::EmptyQuestion);
            }
            let q = question_at(contents, start, i, qs.len() as u8);
            qs.push(q);
            proof {
                done = done.push(blk);
                assert(b == done + rest);
            }
            start = i + 2;
            i = i + 2;
        } else {
            i = i + 1;
        }
    }
    let ghost blk = contents@.subrange(start as int, len as int);
    assert(b == done + seq![blk]);
    assert(b[done.len() as int] == blk);
    if qs.len() == 256 {
        assert forall|k: int| 0 <= k < 256 implies (#[trigger] b[k]).len() > 0 by {
            assert(b[k] == done[k]);
        }
        return Err(QuizError::TooManyQuestions);
    }
    if start == len {
        assert(b[done.len() as int].len() == 0);
        return Err(QuizError::EmptyQuestion);
    }
    let q = question_at(contents, start, len, qs.len() as u8);
    qs.push(q);
    proof {
        done = done.push(blk);
    }
    assert(b =~= done);
    Ok(qs)
}

} // verus!
