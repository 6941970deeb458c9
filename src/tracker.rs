//! What the client tells the tracker about itself, and the peer list that comes back.
use vstd::prelude::*;

verus! {

/// The identity that the client announces to the tracker.
pub struct Tracker {
    pub peer_id: String,
    pub port: u16,
}

/// The peer id that this client uses, "00112233445566778899".
pub open spec fn local_peer_id() -> Seq<char> {
    seq!['0', '0', '1', '1', '2', '2', '3', '3', '4', '4', '5', '5', '6', '6', '7', '7', '8', '8', '9', '9']
}

/// The port that this client announces.
pub const LOCAL_PORT: u16 = 6881;

impl Tracker {
    pub fn new() -> (r: Tracker)
        ensures
            r.peer_id@ == local_peer_id(),
            r.port == LOCAL_PORT,
    {
        let id = "00112233445566778899";
        proof {
            reveal_strlit("00112233445566778899");
        }
        assert(id@ =~= local_peer_id());
        Tracker { peer_id: id.to_owned(), port: LOCAL_PORT }
    }
}

/// The lowercase hexadecimal digit of a value below 16.
pub open spec fn hex_char(d: nat) -> char {
    if d < 10 {
        ((48 + d) as u8) as char
    } else {
        ((87 + d) as u8) as char
    }
}

/// Each byte as `%` and two lowercase hexadecimal digits.
pub open spec fn percent_encode(s: Seq<u8>) -> Seq<char>
    decreases s.len(),
{
    if s.len() == 0 {
        Seq::empty()
    } else {
        percent_encode(s.drop_last()) + seq!['%', hex_char(s.last() as nat / 16), hex_char(s.last() as nat % 16)]
    }
}

/// The one-character string of a hexadecimal digit.
fn hex_str(d: u8) -> (r: &'static str)
    requires
        d < 16,
    ensures
        r@ == seq![hex_char(d as nat)],
{
    proof {
        reveal_strlit("0");
        reveal_strlit("1");
        reveal_strlit("2");
        reveal_strlit("3");
        reveal_strlit("4");
        reveal_strlit("5");
        reveal_strlit("6");
        reveal_strlit("7");
        reveal_strlit("8");
        reveal_strlit("9");
        reveal_strlit("a");
        reveal_strlit("b");
        reveal_strlit("c");
        reveal_strlit("d");
        reveal_strlit("e");
        reveal_strlit("f");
    }
    let r = match d {
        0 => "0",
        1 => "1",
        2 => "2",
        3 => "3",
        4 => "4",
        5 => "5",
        6 => "6",
        7 => "7",
        8 => "8",
        9 => "9",
        10 => "a",
        11 => "b",
        12 => "c",
        13 => "d",
        14 => "e",
        _ => "f",
    };
    assert(r@ =~= seq![hex_char(d as nat)]);
    r
}

/// The info hash as the tracker query wants it: every byte percent-encoded.
pub fn hash_encode(t: &[u8; 20]) -> (r: String)
    ensures
        r@ == percent_encode(t@),
{
    let mut r = String::new();
    let mut i: usize = 0;
    proof {
        reveal_strlit("%");
        assert(t@.subrange(0, 0) =~= Seq::<u8>::empty());
    }
    while i < 20
        invariant
            i <= 20,
            t@.len() == 20,
            r@ == percent_encode(t@.subrange(0, i as int)),
        decreases 20 - i,
    {
        let b = t[i];
        let ghost before = r@;
        proof {
            reveal_strlit("%");
        }
        r.append("%");
        r.append(hex_str(b / 16));
        r.append(hex_str(b % 16));
        proof {
            let pre = t@.subrange(0, i as int + 1);
            assert(pre.drop_last() =~= t@.subrange(0, i as int));
            assert(pre.last() == b);
            assert(percent_encode(pre) == percent_encode(pre.drop_last()) + seq![
                '%',
                hex_char(b as nat / 16),
                hex_char(b as nat % 16),
            ]);
            assert(r@ =~= before + seq!['%', hex_char(b as nat / 16), hex_char(b as nat % 16)]);
        }
        i = i + 1;
        assert(r@ =~= percent_encode(t@.subrange(0, i as int)));
    }
    assert(t@.subrange(0, 20) =~= t@);
    r
}

/// A peer's IPv4 address and port.
#[derive(Debug, Clone, Copy)]
pub struct PeerAddress {
    pub ip: [u8; 4],
    pub port: u16,
}

/// The peer described by the six bytes at `6 * k`: four address bytes, then the port, big-endian.
pub open spec fn compact_peer(s: Seq<u8>, k: int) -> (Seq<u8>, u16) {
    (s.subrange(6 * k, 6 * k + 4), (s[6 * k + 4] as nat * 256 + s[6 * k + 5] as nat) as u16)
}

/// Reads a compact peer list: one peer per six bytes; a trailing partial record is ignored.
pub fn parse_compact_peers(peers: &[u8]) -> (r: Vec<PeerAddress>)
    ensures
        r@.len() == peers@.len() / 6,
        forall|k: int|
            0 <= k < r@.len() ==> (#[trigger] r@[k]).ip@ == compact_peer(peers@, k).0 && r@[k].port
                == compact_peer(peers@, k).1,
{
    let n = peers.len();
    let mut r: Vec<PeerAddress> = Vec::new();
    let mut at: usize = 0;
    while n - at >= 6
        invariant
            n == peers@.len(),
            at % 6 == 0,
            at <= n,
            r@.len() == at / 6,
            forall|k: int|
                0 <= k < r@.len() ==> (#[trigger] r@[k]).ip@ == compact_peer(peers@, k).0
                    && r@[k].port == compact_peer(peers@, k).1,
        decreases n - at,
    {
        let ip: [u8; 4] = [peers[at], peers[at + 1], peers[at + 2], peers[at + 3]];
        let port: u16 = (peers[at + 4] as u16) * 256 + peers[at + 5] as u16;
        assert(ip@ =~= peers@.subrange(at as int, at + 4));
        r.push(PeerAddress { ip, port });
        at = at + 6;
    }
    r
}

} // verus!
