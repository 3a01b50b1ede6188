use crate::packet::{faithful, IndexedPacket, Packet};
use vstd::prelude::*;

verus! {

/// Number of bytes of a gameplay packet on the wire: one tag byte and eight payload bytes.
pub const PACKET_SIZE: usize = 9;

pub type IndexedGamePacket = IndexedPacket<GamePacket, PACKET_SIZE>;

/// A gameplay command. Every real-valued field is held as the bit pattern of its
/// IEEE-754 single-precision value, which is what travels on the wire.
#[derive(Clone, Copy, Debug, PartialEq, Eq, Structural)]
pub enum GamePacket {
    /// Filler without effect.
    Noop,
    /// Spawn a particle at `(x, y)`.
    Spawn(u32, u32),
    /// Set the acceleration of the motor particle with the given index.
    Motor(u32, u32),
    /// Aim at `(x, y)`.
    Muzzle(u32, u32),
    /// Stop aiming.
    ResetMuzzle,
    /// Fire a projectile of the given type.
    Fire(u8),
    /// Left and right thrust.
    Thrust(u32, u32),
    /// Dash with the given coefficient.
    Dash(u32),
}

/// Big-endian encoding of a 32-bit word, most significant byte first.
pub open spec fn be_bytes(x: u32) -> Seq<u8> {
    seq![(x >> 24) as u8, (x >> 16) as u8, (x >> 8) as u8, x as u8]
}

/// The 32-bit word whose big-endian encoding is the first four bytes of `s`.
pub open spec fn be_word(s: Seq<u8>) -> u32 {
    ((s[0] as u32) << 24) | ((s[1] as u32) << 16) | ((s[2] as u32) << 8) | (s[3] as u32)
}

/// `n` zero bytes.
pub open spec fn zeros(n: nat) -> Seq<u8> {
    Seq::new(n, |i: int| 0u8)
}

/// Decoding the big-endian encoding of a word gives the word back.
pub proof fn lemma_be_round_trip(x: u32)
    ensures
        be_bytes(x).len() == 4,
        be_word(be_bytes(x)) == x,
{
    let a = (x >> 24) as u8;
    let b = (x >> 16) as u8;
    let c = (x >> 8) as u8;
    let d = x as u8;
    assert(((a as u32) << 24) | ((b as u32) << 16) | ((c as u32) << 8) | (d as u32) == x)
        by (bit_vector)
        requires
            a == (x >> 24) as u8,
            b == (x >> 16) as u8,
            c == (x >> 8) as u8,
            d == x as u8,
    ;
}

/// Wire form of a packet with two words of payload.
pub open spec fn two_words(tag: u8, a: u32, b: u32) -> Seq<u8> {
    seq![tag] + be_bytes(a) + be_bytes(b)
}

/// Writes the big-endian encoding of `x` into `bytes[at..at + 4]`.
fn put_word(bytes: &mut [u8; 9], at: usize, x: u32)
    requires
        at + 4 <= 9,
    ensures
        final(bytes)@ == old(bytes)@.take(at as int) + be_bytes(x) + old(bytes)@.skip(at + 4),
{
    let ghost before = bytes@;
    bytes[at] = (x >> 24) as u8;
    bytes[at + 1] = (x >> 16) as u8;
    bytes[at + 2] = (x >> 8) as u8;
    bytes[at + 3] = x as u8;
    proof {
        assert(bytes@ =~= before.take(at as int) + be_bytes(x) + before.skip(at + 4));
    }
}

/// Reads the word whose big-endian encoding is `bytes[at..at + 4]`.
fn get_word(bytes: &[u8; 9], at: usize) -> (x: u32)
    requires
        at + 4 <= 9,
    ensures
        x == be_word(bytes@.subrange(at as int, at + 4)),
{
    let a = bytes[at] as u32;
    let b = bytes[at + 1] as u32;
    let c = bytes[at + 2] as u32;
    let d = bytes[at + 3] as u32;
    proof {
        let s = bytes@.subrange(at as int, at + 4);
        assert(s[0] == bytes@[at as int]);
        assert(s[1] == bytes@[at + 1]);
        assert(s[2] == bytes@[at + 2]);
        assert(s[3] == bytes@[at + 3]);
    }
    (a << 24) | (b << 16) | (c << 8) | d
}

impl Packet<PACKET_SIZE> for GamePacket {
    /// The tag byte, then eight bytes of payload: words big-endian, unused bytes zero.
    open spec fn wire(&self) -> Seq<u8> {
        match *self {
            GamePacket::Noop => zeros(9),
            GamePacket::Spawn(x, y) => two_words(1, x, y),
            GamePacket::Motor(ind, acc) => two_words(2, ind, acc),
            GamePacket::Muzzle(x, y) => two_words(3, x, y),
            GamePacket::Fire(bullet) => seq![4u8, bullet] + zeros(7),
            GamePacket::Thrust(left, right) => two_words(5, left, right),
            GamePacket::Dash(coeff) => seq![6u8] + be_bytes(coeff) + zeros(4),
            GamePacket::ResetMuzzle => seq![7u8] + zeros(8),
        }
    }

    /// The packet that the tag byte names; an unknown tag reads as `Noop`.
    open spec fn parsed(bytes: Seq<u8>) -> Self {
        let a = be_word(bytes.subrange(1, 5));
        let b = be_word(bytes.subrange(5, 9));
        if bytes[0] == 1 {
            GamePacket::Spawn(a, b)
        } else if bytes[0] == 2 {
            GamePacket::Motor(a, b)
        } else if bytes[0] == 3 {
            GamePacket::Muzzle(a, b)
        } else if bytes[0] == 4 {
            GamePacket::Fire(bytes[1])
        } else if bytes[0] == 5 {
            GamePacket::Thrust(a, b)
        } else if bytes[0] == 6 {
            GamePacket::Dash(a)
        } else if bytes[0] == 7 {
            GamePacket::ResetMuzzle
        } else {
            GamePacket::Noop
        }
    }

    proof fn lemma_wire_len(&self) {
    }

    fn to_bytes(&self) -> (bytes: [u8; PACKET_SIZE]) {
        let mut bytes = [0u8; 9];
        proof {
            assert(bytes@ =~= zeros(9));
        }
        match *self {
            GamePacket::Noop => {},
            GamePacket::Spawn(x, y) => {
                bytes[0] = 1;
                put_word(&mut bytes, 1, x);
                put_word(&mut bytes, 5, y);
                proof {
                    assert(bytes@ =~= two_words(1, x, y));
                }
            },
            GamePacket::Motor(ind, acc) => {
                bytes[0] = 2;
                put_word(&mut bytes, 1, ind);
                put_word(&mut bytes, 5, acc);
                proof {
                    assert(bytes@ =~= two_words(2, ind, acc));
                }
            },
            GamePacket::Muzzle(x, y) => {
                bytes[0] = 3;
                put_word(&mut bytes, 1, x);
                put_word(&mut bytes, 5, y);
                proof {
                    assert(bytes@ =~= two_words(3, x, y));
                }
            },
            GamePacket::Fire(bullet) => {
                bytes[0] = 4;
                bytes[1] = bullet;
                proof {
                    assert(bytes@ =~= seq![4u8, bullet] + zeros(7));
                }
            },
            GamePacket::Thrust(left, right) => {
                bytes[0] = 5;
                put_word(&mut bytes, 1, left);
                put_word(&mut bytes, 5, right);
                proof {
                    assert(bytes@ =~= two_words(5, left, right));
                }
            },
            GamePacket::Dash(coeff) => {
                bytes[0] = 6;
                put_word(&mut bytes, 1, coeff);
                proof {
                    assert(bytes@ =~= seq![6u8] + be_bytes(coeff) + zeros(4));
                }
            },
            GamePacket::ResetMuzzle => {
                bytes[0] = 7;
                proof {
                    assert(bytes@ =~= seq![7u8] + zeros(8));
                }
            },
        }
        bytes
    }

    fn from_bytes(value: &[u8; PACKET_SIZE]) -> (packet: Self) {
        let kind = value[0];
        if kind == 1 {
            GamePacket::Spawn(get_word(value, 1), get_word(value, 5))
        } else if kind == 2 {
            GamePacket::Motor(get_word(value, 1), get_word(value, 5))
        } else if kind == 3 {
            GamePacket::Muzzle(get_word(value, 1), get_word(value, 5))
        } else if kind == 4 {
            GamePacket::Fire(value[1])
        } else if kind == 5 {
            GamePacket::Thrust(get_word(value, 1), get_word(value, 5))
        } else if kind == 6 {
            GamePacket::Dash(get_word(value, 1))
        } else if kind == 7 {
            GamePacket::ResetMuzzle
        } else {
            GamePacket::Noop
        }
    }
}

/// Reading the wire form of a packet gives the packet back, whatever the packet.
pub proof fn lemma_game_packet_round_trip(p: GamePacket)
    ensures
        p.wire().len() == PACKET_SIZE,
        GamePacket::parsed(p.wire()) == p,
        faithful::<GamePacket, PACKET_SIZE>(p),
{
    let w = p.wire();
    match p {
        GamePacket::Spawn(a, b) | GamePacket::Motor(a, b) | GamePacket::Muzzle(a, b)
        | GamePacket::Thrust(a, b) => {
            lemma_be_round_trip(a);
            lemma_be_round_trip(b);
            assert(w.subrange(1, 5) =~= be_bytes(a));
            assert(w.subrange(5, 9) =~= be_bytes(b));
        },
        GamePacket::Dash(a) => {
            lemma_be_round_trip(a);
            assert(w.subrange(1, 5) =~= be_bytes(a));
        },
        _ => {},
    }
}

} // verus!
