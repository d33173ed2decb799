//! Messages shared by the duel client and server, and the frame format.
//!
//! A frame is `[u32 little-endian length][payload]`, the payload being the
//! JSON text of one message.  Values that the game keeps as floating point
//! (accuracy, energy) travel through this library as integers: an accuracy
//! as the bit pattern of its `f32` plus its value in units of 1/10000, an
//! energy in thousandths of a unit.

use vstd::prelude::*;

verus! {

/// Largest payload a frame may carry.
pub const MAX_FRAME: u32 = 1048576;

/// Interference that one player may cast on the other during a round.
#[derive(Clone, Copy, Debug, PartialEq, Eq, Structural, Hash)]
pub enum Interference {
    /// A fog layer over the judge line.
    Fog,
    /// The judge line shakes.
    Shake,
    /// A noise overlay.
    Noise,
    /// The whole screen dims.
    Dim,
}

impl Interference {
    /// All kinds, in index order.
    pub fn all() -> (r: [Interference; 4])
        ensures
            r@ == seq![Interference::Fog, Interference::Shake, Interference::Noise, Interference::Dim],
    {
        [Interference::Fog, Interference::Shake, Interference::Noise, Interference::Dim]
    }

    pub open spec fn spec_cost(self) -> u32 {
        match self {
            Interference::Fog => 30,
            Interference::Shake => 35,
            Interference::Noise => 25,
            Interference::Dim => 40,
        }
    }

    /// Energy needed to cast it, in whole energy units.
    pub fn cost(self) -> (r: u32)
        ensures
            r == self.spec_cost(),
    {
        match self {
            Interference::Fog => 30,
            Interference::Shake => 35,
            Interference::Noise => 25,
            Interference::Dim => 40,
        }
    }

    pub open spec fn spec_duration_ms(self) -> u64 {
        match self {
            Interference::Fog => 2500,
            Interference::Shake => 2500,
            Interference::Noise => 2000,
            Interference::Dim => 2500,
        }
    }

    /// How long the effect lasts on the target, in milliseconds.
    pub fn duration_ms(self) -> (r: u64)
        ensures
            r == self.spec_duration_ms(),
    {
        match self {
            Interference::Fog => 2500,
            Interference::Shake => 2500,
            Interference::Noise => 2000,
            Interference::Dim => 2500,
        }
    }

    /// Display name.
    pub fn name(self) -> (r: &'static str)
        ensures
            self == Interference::Fog ==> r@ == "迷雾"@,
            self == Interference::Shake ==> r@ == "抖线"@,
            self == Interference::Noise ==> r@ == "噪点"@,
            self == Interference::Dim ==> r@ == "压暗"@,
    {
        match self {
            Interference::Fog => "迷雾",
            Interference::Shake => "抖线",
            Interference::Noise => "噪点",
            Interference::Dim => "压暗",
        }
    }

    pub open spec fn spec_index(self) -> nat {
        match self {
            Interference::Fog => 0,
            Interference::Shake => 1,
            Interference::Noise => 2,
            Interference::Dim => 3,
        }
    }

    /// Position of the kind in [`Interference::all`].
    pub fn index(self) -> (r: usize)
        ensures
            r == self.spec_index(),
            r < 4,
    {
        match self {
            Interference::Fog => 0,
            Interference::Shake => 1,
            Interference::Noise => 2,
            Interference::Dim => 3,
        }
    }
}

/// Every kind sits at its own index of `all()`: the index is a bijection
/// between the kinds and `0..4`.
pub proof fn lemma_interference_index_bijective(a: Interference, b: Interference)
    ensures
        a.spec_index() < 4,
        a.spec_index() == b.spec_index() <==> a == b,
        seq![Interference::Fog, Interference::Shake, Interference::Noise, Interference::Dim][a.spec_index() as int] == a,
{
}

/// What a player does during the ban/pick phase.
#[derive(Clone, Copy, Debug, PartialEq, Eq, Structural)]
pub enum BpAction {
    Ban,
    Pick,
}

impl BpAction {
    /// Display name.
    pub fn name(self) -> (r: &'static str)
        ensures
            self == BpAction::Ban ==> r@ == "禁用"@,
            self == BpAction::Pick ==> r@ == "选曲"@,
    {
        match self {
            BpAction::Ban => "禁用",
            BpAction::Pick => "选曲",
        }
    }
}

/// What follows a finished round.
#[derive(Clone, Copy, Debug, PartialEq, Eq, Structural)]
pub enum NextStep {
    /// The round with this index starts.
    Round { index: u8 },
    /// Back to ban/pick: `actor` picks the chart of the deciding round.
    Bp { actor: u8 },
    /// The match is over.
    End,
}

/// A player as the other players see it.
#[derive(Clone, Debug)]
pub struct PlayerInfo {
    pub name: String,
}

/// An accuracy as the game reports it: the bit pattern of the `f32` value,
/// carried unchanged, and the value in units of 1/10000 (truncated), which
/// is what rounds are decided by.
#[derive(Clone, Copy, Debug, PartialEq, Eq, Structural)]
pub struct Accuracy {
    pub bits: u32,
    pub ten_thousandths: u32,
}

/// One player's result of one round.
#[derive(Clone, Copy, Debug, PartialEq, Eq, Structural)]
pub struct RoundScore {
    pub player: u8,
    pub score: u32,
    pub accuracy: Accuracy,
    pub max_combo: u32,
}

/// Why a frame cannot be written or read.
#[derive(Clone, Copy, Debug, PartialEq, Eq, Structural)]
pub enum FrameError {
    /// The payload (or the announced length) is larger than [`MAX_FRAME`].
    TooLarge { len: u64 },
}

pub open spec fn le_bytes_u32(n: u32) -> Seq<u8> {
    seq![(n % 256) as u8, ((n / 256) % 256) as u8, ((n / 65536) % 256) as u8, (n / 16777216) as u8]
}

pub open spec fn le_value(b: Seq<u8>) -> int
    recommends
        b.len() == 4,
{
    b[0] + 256 * b[1] + 65536 * b[2] + 16777216 * b[3]
}

/// The four header bytes of a frame whose payload is `len` bytes long.
pub fn frame_header(len: u32) -> (r: [u8; 4])
    ensures
        r@ == le_bytes_u32(len),
        le_value(r@) == len,
{
    let b0 = (len % 256) as u8;
    let b1 = ((len / 256) % 256) as u8;
    let b2 = ((len / 65536) % 256) as u8;
    let b3 = (len / 16777216) as u8;
    [b0, b1, b2, b3]
}

/// The payload length announced by a frame header.
pub fn header_len(header: [u8; 4]) -> (r: u32)
    ensures
        r == le_value(header@),
{
    let v: u32 = header[0] as u32 + 256 * (header[1] as u32) + 65536 * (header[2] as u32) + 16777216 * (header[3] as u32);
    v
}

/// A whole frame for `payload`: header then payload.  Payloads larger than
/// [`MAX_FRAME`] are refused.
pub fn encode_frame(payload: &[u8]) -> (r: Result<Vec<u8>, FrameError>)
    ensures
        payload@.len() > MAX_FRAME ==> r == Err::<Vec<u8>, FrameError>(FrameError::TooLarge { len: payload@.len() as u64 }),
        payload@.len() <= MAX_FRAME ==> r is Ok && r->Ok_0@ == le_bytes_u32(payload@.len() as u32) + payload@,
{
    let n = payload.len();
    if n > MAX_FRAME as usize {
        return Err(FrameError::TooLarge { len: n as u64 });
    }
    let header = frame_header(n as u32);
    let mut out: Vec<u8> = Vec::new();
    out.push(header[0]);
    out.push(header[1]);
    out.push(header[2]);
    out.push(header[3]);
    let mut i: usize = 0;
    while i < n
        invariant
            i <= n,
            n == payload@.len(),
            out@ == le_bytes_u32(n as u32) + payload@.subrange(0, i as int),
        decreases n - i,
    {
        out.push(payload[i]);
        i = i + 1;
        assert(payload@.subrange(0, i as int) == payload@.subrange(0, i - 1).push(payload@[i - 1]));
    }
    assert(payload@.subrange(0, n as int) == payload@);
    Ok(out)
}

/// Reads a frame header: the payload length that follows, or an error when
/// the announced length is larger than [`MAX_FRAME`].
pub fn check_header(header: [u8; 4]) -> (r: Result<u32, FrameError>)
    ensures
        le_value(header@) <= MAX_FRAME ==> r == Ok::<u32, FrameError>(le_value(header@) as u32),
        le_value(header@) > MAX_FRAME ==> r == Err::<u32, FrameError>(FrameError::TooLarge { len: le_value(header@) as u64 }),
{
    let n = header_len(header);
    if n > MAX_FRAME {
        Err(FrameError::TooLarge { len: n as u64 })
    } else {
        Ok(n)
    }
}

/// Reading back a frame written by [`encode_frame`] gives the payload:
/// its first four bytes announce the payload's length, which the reader
/// accepts, and the bytes after them are the payload.
pub proof fn lemma_frame_roundtrip(payload: Seq<u8>)
    requires
        payload.len() <= MAX_FRAME,
    ensures
        ({
            let frame = le_bytes_u32(payload.len() as u32) + payload;
            &&& le_value(frame.take(4)) == payload.len()
            &&& le_value(frame.take(4)) <= MAX_FRAME
            &&& frame.skip(4) == payload
        }),
{
    let frame = le_bytes_u32(payload.len() as u32) + payload;
    assert(frame.take(4) =~= le_bytes_u32(payload.len() as u32));
    assert(frame.skip(4) =~= payload);
}

} // verus!
