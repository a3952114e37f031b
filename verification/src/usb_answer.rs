use vstd::prelude::*;
use vstd::utf8::{decode_utf8, valid_utf8};

use crate::bytes::{same_bytes, utf8_text};
use crate::rawtrack::{parse_decimal, parse_u32, split_at_byte, split_bytes};

verus! {

/// What the device reports back after a command, as one line of text whose words are
/// separated by single spaces.
#[derive(Debug, Clone, PartialEq, Eq)]
pub enum UsbAnswer {
    WrittenAndVerified {
        cylinder: u32,
        head: u32,
        writes: u32,
        reads: u32,
        max_err: u32,
        similarity_threshold: u32,
        match_after_pulses: u32,
        write_precomp: u32,
    },
    Fail { cylinder: u32, head: u32, writes: u32, reads: u32, error: String },
    GotCmd,
    WriteProtected,
    RotationTicks { ticks: u32 },
}

/// Why an answer of the device could not be read.
#[derive(Debug, Clone, Copy, PartialEq, Eq)]
pub enum AnswerError {
    /// The answer is not UTF-8 text.
    NotUtf8,
    /// A word that the answer needs is missing.
    MissingField,
    /// A word that should be a number is not a decimal `u32`.
    BadNumber,
    /// The first word names no known answer.
    Unexpected,
}

/// An answer with its text field taken as characters.
pub enum AnswerView {
    WrittenAndVerified { fields: Seq<u32> },
    Fail { cylinder: u32, head: u32, writes: u32, reads: u32, error: Seq<char> },
    GotCmd,
    WriteProtected,
    RotationTicks { ticks: u32 },
}

pub open spec fn answer_view(a: UsbAnswer) -> AnswerView {
    match a {
        UsbAnswer::WrittenAndVerified {
            cylinder,
            head,
            writes,
            reads,
            max_err,
            similarity_threshold,
            match_after_pulses,
            write_precomp,
        } => AnswerView::WrittenAndVerified {
            fields: seq![
                cylinder,
                head,
                writes,
                reads,
                max_err,
                similarity_threshold,
                match_after_pulses,
                write_precomp,
            ],
        },
        UsbAnswer::Fail { cylinder, head, writes, reads, error } => AnswerView::Fail {
            cylinder,
            head,
            writes,
            reads,
            error: error@,
        },
        UsbAnswer::GotCmd => AnswerView::GotCmd,
        UsbAnswer::WriteProtected => AnswerView::WriteProtected,
        UsbAnswer::RotationTicks { ticks } => AnswerView::RotationTicks { ticks },
    }
}

pub open spec fn word_rotation_ticks() -> Seq<u8> {
    seq![0x52u8, 0x6fu8, 0x74u8, 0x61u8, 0x74u8, 0x69u8, 0x6fu8, 0x6eu8, 0x54u8, 0x69u8, 0x63u8, 0x6bu8, 0x73u8]
}

pub open spec fn word_written_and_verified() -> Seq<u8> {
    seq![
        0x57u8, 0x72u8, 0x69u8, 0x74u8, 0x74u8, 0x65u8, 0x6eu8, 0x41u8, 0x6eu8, 0x64u8, 0x56u8, 0x65u8, 0x72u8, 0x69u8, 0x66u8,
        0x69u8, 0x65u8, 0x64u8,
    ]
}

pub open spec fn word_got_cmd() -> Seq<u8> {
    seq![0x47u8, 0x6fu8, 0x74u8, 0x43u8, 0x6du8, 0x64u8]
}

pub open spec fn word_fail() -> Seq<u8> {
    seq![0x46u8, 0x61u8, 0x69u8, 0x6cu8]
}

pub open spec fn word_write_protected() -> Seq<u8> {
    seq![0x57u8, 0x72u8, 0x69u8, 0x74u8, 0x65u8, 0x50u8, 0x72u8, 0x6fu8, 0x74u8, 0x65u8, 0x63u8, 0x74u8, 0x65u8, 0x64u8]
}

/// The numbers in words `1..=n`, read in order: the first word that is missing or not a
/// number decides the error.
pub open spec fn numbers_at(t: Seq<Seq<u8>>, n: nat) -> Result<Seq<u32>, AnswerError>
    decreases n,
{
    if n == 0 {
        Ok(Seq::empty())
    } else {
        match numbers_at(t, (n - 1) as nat) {
            Err(e) => Err(e),
            Ok(v) => if n >= t.len() {
                Err(AnswerError::MissingField)
            } else {
                match parse_u32(t[n as int]) {
                    None => Err(AnswerError::BadNumber),
                    Some(x) => Ok(v.push(x)),
                }
            },
        }
    }
}

/// What an answer of the device says, or why it cannot be read.
pub open spec fn answer_spec(b: Seq<u8>) -> Result<AnswerView, AnswerError> {
    if !valid_utf8(b) {
        Err(AnswerError::NotUtf8)
    } else {
        let t = split_bytes(b, 0x20u8);
        let first = t[0];
        if first == word_rotation_ticks() {
            match numbers_at(t, 1) {
                Err(e) => Err(e),
                Ok(v) => Ok(AnswerView::RotationTicks { ticks: v[0] }),
            }
        } else if first == word_written_and_verified() {
            match numbers_at(t, 8) {
                Err(e) => Err(e),
                Ok(v) => Ok(AnswerView::WrittenAndVerified { fields: v }),
            }
        } else if first == word_got_cmd() {
            Ok(AnswerView::GotCmd)
        } else if first == word_fail() {
            match numbers_at(t, 4) {
                Err(e) => Err(e),
                Ok(v) => if t.len() <= 5 {
                    Err(AnswerError::MissingField)
                } else if !valid_utf8(t[5]) {
                    Err(AnswerError::NotUtf8)
                } else {
                    Ok(
                        AnswerView::Fail {
                            cylinder: v[0],
                            head: v[1],
                            writes: v[2],
                            reads: v[3],
                            error: decode_utf8(t[5]),
                        },
                    )
                },
            }
        } else if first == word_write_protected() {
            Ok(AnswerView::WriteProtected)
        } else {
            Err(AnswerError::Unexpected)
        }
    }
}

/// Reads the numbers in words `1..=n` of the split answer `t` of `buf`.
fn numbers_in(buf: &[u8], t: &Vec<Vec<u8>>, n: usize) -> (r: Result<Vec<u32>, AnswerError>)
    requires
        t@.len() == split_bytes(buf@, 0x20u8).len(),
        forall|i: int| 0 <= i < t@.len() ==> #[trigger] t@[i]@ == split_bytes(buf@, 0x20u8)[i],
    ensures
        match r {
            Ok(v) => numbers_at(split_bytes(buf@, 0x20u8), n as nat) == Ok::<Seq<u32>, AnswerError>(v@),
            Err(e) => numbers_at(split_bytes(buf@, 0x20u8), n as nat) == Err::<Seq<u32>, AnswerError>(e),
        },
{
    let ghost tokens = split_bytes(buf@, 0x20u8);
    let mut v: Vec<u32> = Vec::new();
    let mut k: usize = 0;
    while k < n
        invariant
            k <= n,
            t@.len() == tokens.len(),
            forall|i: int| 0 <= i < t@.len() ==> #[trigger] t@[i]@ == tokens[i],
            tokens == split_bytes(buf@, 0x20u8),
            numbers_at(tokens, k as nat) == Ok::<Seq<u32>, AnswerError>(v@),
        decreases n - k,
    {
        let idx = k + 1;
        if idx >= t.len() {
            proof {
                assert(numbers_at(tokens, (k + 1) as nat) == Err::<Seq<u32>, AnswerError>(AnswerError::MissingField));
                lemma_numbers_err_stays(tokens, (k + 1) as nat, n as nat);
            }
            return Err(AnswerError::MissingField);
        }
        match parse_decimal(t[idx].as_slice()) {
            None => {
                proof {
                    assert(numbers_at(tokens, (k + 1) as nat) == Err::<Seq<u32>, AnswerError>(AnswerError::BadNumber));
                    lemma_numbers_err_stays(tokens, (k + 1) as nat, n as nat);
                }
                return Err(AnswerError::BadNumber);
            },
            Some(x) => {
                v.push(x);
            },
        }
        k = idx;
    }
    Ok(v)
}

proof fn lemma_numbers_err_stays(t: Seq<Seq<u8>>, m: nat, n: nat)
    requires
        m <= n,
        numbers_at(t, m) is Err,
    ensures
        numbers_at(t, n) == numbers_at(t, m),
    decreases n - m,
{
    if m < n {
        lemma_numbers_err_stays(t, m, (n - 1) as nat);
    }
}

proof fn lemma_numbers_len(t: Seq<Seq<u8>>, n: nat)
    requires
        numbers_at(t, n) is Ok,
    ensures
        numbers_at(t, n)->Ok_0.len() == n,
    decreases n,
{
    if n > 0 {
        lemma_numbers_len(t, (n - 1) as nat);
    }
}

fn word_bytes_rotation_ticks() -> (r: Vec<u8>)
    ensures
        r@ == word_rotation_ticks(),
{
    let r = vec![0x52u8, 0x6fu8, 0x74u8, 0x61u8, 0x74u8, 0x69u8, 0x6fu8, 0x6eu8, 0x54u8, 0x69u8, 0x63u8, 0x6bu8, 0x73u8];
    assert(r@ =~= word_rotation_ticks());
    r
}

fn word_bytes_written_and_verified() -> (r: Vec<u8>)
    ensures
        r@ == word_written_and_verified(),
{
    let r = vec![
        0x57u8, 0x72u8, 0x69u8, 0x74u8, 0x74u8, 0x65u8, 0x6eu8, 0x41u8, 0x6eu8, 0x64u8, 0x56u8, 0x65u8, 0x72u8, 0x69u8, 0x66u8,
        0x69u8, 0x65u8, 0x64u8,
    ];
    assert(r@ =~= word_written_and_verified());
    r
}

fn word_bytes_got_cmd() -> (r: Vec<u8>)
    ensures
        r@ == word_got_cmd(),
{
    let r = vec![0x47u8, 0x6fu8, 0x74u8, 0x43u8, 0x6du8, 0x64u8];
    assert(r@ =~= word_got_cmd());
    r
}

fn word_bytes_fail() -> (r: Vec<u8>)
    ensures
        r@ == word_fail(),
{
    let r = vec![0x46u8, 0x61u8, 0x69u8, 0x6cu8];
    assert(r@ =~= word_fail());
    r
}

fn word_bytes_write_protected() -> (r: Vec<u8>)
    ensures
        r@ == word_write_protected(),
{
    let r = vec![0x57u8, 0x72u8, 0x69u8, 0x74u8, 0x65u8, 0x50u8, 0x72u8, 0x6fu8, 0x74u8, 0x65u8, 0x63u8, 0x74u8, 0x65u8, 0x64u8];
    assert(r@ =~= word_write_protected());
    r
}

/// Reads one answer of the device.
pub fn parse_answer(buf: &[u8]) -> (r: Result<UsbAnswer, AnswerError>)
    ensures
        match r {
            Ok(a) => answer_spec(buf@) == Ok::<AnswerView, AnswerError>(answer_view(a)),
            Err(e) => answer_spec(buf@) == Err::<AnswerView, AnswerError>(e),
        },
{
    if utf8_text(buf).is_none() {
        return Err(AnswerError::NotUtf8);
    }
    let t = split_at_byte(buf, 0x20u8);
    let ghost tokens = split_bytes(buf@, 0x20u8);
    proof {
        crate::rawtrack::lemma_split_len(buf@, 0x20u8);
    }
    let first = t[0].as_slice();
    if same_bytes(first, word_bytes_rotation_ticks().as_slice()) {
        let v = numbers_in(buf, &t, 1)?;
        proof {
            lemma_numbers_len(tokens, 1);
        }
        Ok(UsbAnswer::RotationTicks { ticks: v[0] })
    } else if same_bytes(first, word_bytes_written_and_verified().as_slice()) {
        let v = numbers_in(buf, &t, 8)?;
        proof {
            lemma_numbers_len(tokens, 8);
        }
        let a = UsbAnswer::WrittenAndVerified {
            cylinder: v[0],
            head: v[1],
            writes: v[2],
            reads: v[3],
            max_err: v[4],
            similarity_threshold: v[5],
            match_after_pulses: v[6],
            write_precomp: v[7],
        };
        assert(answer_view(a) == AnswerView::WrittenAndVerified { fields: v@ }) by {
            assert(v@ =~= seq![v@[0], v@[1], v@[2], v@[3], v@[4], v@[5], v@[6], v@[7]]);
        }
        Ok(a)
    } else if same_bytes(first, word_bytes_got_cmd().as_slice()) {
        Ok(UsbAnswer::GotCmd)
    } else if same_bytes(first, word_bytes_fail().as_slice()) {
        let v = numbers_in(buf, &t, 4)?;
        proof {
            lemma_numbers_len(tokens, 4);
        }
        if t.len() <= 5 {
            return Err(AnswerError::MissingField);
        }
        match utf8_text(t[5].as_slice()) {
            None => Err(AnswerError::NotUtf8),
            Some(error) => Ok(
                UsbAnswer::Fail { cylinder: v[0], head: v[1], writes: v[2], reads: v[3], error },
            ),
        }
    } else if same_bytes(first, word_bytes_write_protected().as_slice()) {
        Ok(UsbAnswer::WriteProtected)
    } else {
        Err(AnswerError::Unexpected)
    }
}

/// What one packet of a track read means.
#[derive(Debug, Clone, PartialEq, Eq)]
pub enum TrackPacket {
    /// A full packet of flux data; it was appended.
    Data,
    /// The empty packet that ends the track.
    End,
    /// Any other size: the device reports an error in words.
    Message(String),
    /// Such a report that is not UTF-8 text.
    NotUtf8,
}

/// Size of a full packet of flux data.
pub const PACKET_SIZE: usize = 64;

/// Takes one packet of a track read: full packets are data, the empty packet ends the
/// track, and any other packet carries an error report.
pub fn absorb_track_packet(acc: &mut Vec<u8>, packet: &[u8]) -> (r: TrackPacket)
    ensures
        packet@.len() == PACKET_SIZE ==> r == TrackPacket::Data && final(acc)@ == old(acc)@ + packet@,
        packet@.len() != PACKET_SIZE ==> final(acc)@ == old(acc)@,
        packet@.len() == 0 ==> r == TrackPacket::End,
        packet@.len() != 0 && packet@.len() != PACKET_SIZE ==> match r {
            TrackPacket::Message(s) => valid_utf8(packet@) && s@ == decode_utf8(packet@),
            TrackPacket::NotUtf8 => !valid_utf8(packet@),
            _ => false,
        },
{
    if packet.len() == PACKET_SIZE {
        let mut i: usize = 0;
        while i < packet.len()
            invariant
                i <= packet@.len(),
                acc@ == old(acc)@ + packet@.take(i as int),
            decreases packet@.len() - i,
        {
            acc.push(packet[i]);
            i = i + 1;
            assert(acc@ =~= old(acc)@ + packet@.take(i as int));
        }
        assert(packet@.take(packet@.len() as int) =~= packet@);
        TrackPacket::Data
    } else if packet.len() == 0 {
        TrackPacket::End
    } else {
        match utf8_text(packet) {
            Some(s) => TrackPacket::Message(s),
            None => TrackPacket::NotUtf8,
        }
    }
}

} // verus!
