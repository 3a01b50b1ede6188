use vstd::prelude::*;

verus! {

/// A fixed-size packet: a value with a wire form of exactly `SIZE` bytes.
pub trait Packet<const SIZE: usize>: Copy {
    /// The wire form of the packet.
    spec fn wire(&self) -> Seq<u8>;

    /// The packet that a wire form stands for. Total: every byte string is read as some packet.
    spec fn parsed(bytes: Seq<u8>) -> Self;

    /// The wire form has exactly `SIZE` bytes.
    proof fn lemma_wire_len(&self)
        ensures
            self.wire().len() == SIZE,
    ;

    fn to_bytes(&self) -> (bytes: [u8; SIZE])
        ensures
            bytes@ == self.wire(),
    ;

    fn from_bytes(value: &[u8; SIZE]) -> (packet: Self)
        ensures
            packet == Self::parsed(value@),
    ;
}

/// Raw bytes are their own wire form.
impl<const SIZE: usize> Packet<SIZE> for [u8; SIZE] {
    open spec fn wire(&self) -> Seq<u8> {
        self@
    }

    open spec fn parsed(bytes: Seq<u8>) -> Self {
        choose|a: [u8; SIZE]| a@ == bytes
    }

    proof fn lemma_wire_len(&self) {
    }

    fn to_bytes(&self) -> (bytes: [u8; SIZE]) {
        *self
    }

    fn from_bytes(value: &[u8; SIZE]) -> (packet: Self) {
        proof {
            let c = choose|a: [u8; SIZE]| a@ == value@;
            assert((*value)@ == value@);
            assert(c@ =~= (*value)@);
            assert(c =~= *value);
        }
        *value
    }
}

/// A packet together with the id of the player who sent it.
#[derive(Clone, Copy, Debug)]
pub struct IndexedPacket<P: Packet<SIZE>, const SIZE: usize> {
    pub id: u8,
    pub contents: P,
}

/// Wire form of an indexed packet: the sender's id, then the packet.
pub open spec fn packet_bytes<P: Packet<SIZE>, const SIZE: usize>(
    p: IndexedPacket<P, SIZE>,
) -> Seq<u8> {
    seq![p.id] + p.contents.wire()
}

/// The indexed packet that `SIZE + 1` bytes stand for.
pub open spec fn packet_at<P: Packet<SIZE>, const SIZE: usize>(bytes: Seq<u8>) -> IndexedPacket<
    P,
    SIZE,
> {
    IndexedPacket { id: bytes[0], contents: P::parsed(bytes.skip(1)) }
}

/// A packet is faithful when reading its wire form gives it back.
pub open spec fn faithful<P: Packet<SIZE>, const SIZE: usize>(p: P) -> bool {
    P::parsed(p.wire()) == p
}

/// Reads the indexed packet that starts at `at`.
fn read_packet<P: Packet<SIZE>, const SIZE: usize>(bytes: &[u8], at: usize) -> (packet:
    IndexedPacket<P, SIZE>)
    requires
        at + SIZE + 1 <= bytes@.len(),
    ensures
        packet == packet_at::<P, SIZE>(bytes@.subrange(at as int, at + SIZE + 1)),
{
    let total = bytes.len();
    let mut payload = [0u8; SIZE];
    let mut k: usize = 0;
    while k < SIZE
        invariant
            k <= SIZE,
            total == bytes@.len(),
            at + SIZE + 1 <= bytes@.len(),
            forall|m: int| 0 <= m < k ==> payload@[m] == bytes@[at + 1 + m],
        decreases SIZE - k,
    {
        payload[k] = bytes[at + 1 + k];
        k += 1;
    }
    proof {
        assert(payload@ =~= bytes@.subrange(at as int, at + SIZE + 1).skip(1));
    }
    IndexedPacket { id: bytes[at], contents: P::from_bytes(&payload) }
}

impl<P: Packet<SIZE>, const SIZE: usize> IndexedPacket<P, SIZE> {
    pub fn new(id: u8, contents: P) -> (packet: Self)
        ensures
            packet.id == id,
            packet.contents == contents,
    {
        Self { id, contents }
    }

    /// The sender's id followed by the packet's wire form.
    pub fn to_bytes(&self) -> (bytes: Vec<u8>)
        ensures
            bytes@ == packet_bytes(*self),
    {
        let mut bytes: Vec<u8> = Vec::new();
        bytes.push(self.id);
        let body = self.contents.to_bytes();
        let mut k: usize = 0;
        while k < SIZE
            invariant
                k <= SIZE,
                body@ == self.contents.wire(),
                bytes@ == seq![self.id] + body@.take(k as int),
            decreases SIZE - k,
        {
            bytes.push(body[k]);
            proof {
                assert(body@.take(k + 1) =~= body@.take(k as int).push(body@[k as int]));
            }
            k += 1;
        }
        proof {
            assert(body@.take(SIZE as int) =~= body@);
        }
        bytes
    }

    /// Reads an indexed packet from exactly `SIZE + 1` bytes.
    pub fn from_bytes(bytes: &[u8]) -> (packet: Self)
        requires
            bytes@.len() == SIZE + 1,
        ensures
            packet == packet_at::<P, SIZE>(bytes@),
    {
        proof {
            assert(bytes@.subrange(0, 0 + SIZE + 1) =~= bytes@);
        }
        read_packet(bytes, 0)
    }
}

/// Wire form of one bucket's packets, without the count byte.
pub open spec fn bucket_bytes<P: Packet<SIZE>, const SIZE: usize>(
    b: Seq<IndexedPacket<P, SIZE>>,
) -> Seq<u8>
    decreases b.len(),
{
    if b.len() == 0 {
        Seq::empty()
    } else {
        bucket_bytes(b.drop_last()) + packet_bytes(b.last())
    }
}

/// Wire form of one bucket: its count byte, then its packets.
pub open spec fn frame_bytes<P: Packet<SIZE>, const SIZE: usize>(
    b: Seq<IndexedPacket<P, SIZE>>,
) -> Seq<u8> {
    seq![b.len() as u8] + bucket_bytes(b)
}

/// Wire form of a batch: its buckets' wire forms, one after the other.
pub open spec fn queue_bytes<P: Packet<SIZE>, const SIZE: usize>(
    q: Seq<Seq<IndexedPacket<P, SIZE>>>,
) -> Seq<u8>
    decreases q.len(),
{
    if q.len() == 0 {
        Seq::empty()
    } else {
        queue_bytes(q.drop_last()) + frame_bytes(q.last())
    }
}

/// The buckets of a batch held in vectors.
pub open spec fn queue_view<P: Packet<SIZE>, const SIZE: usize>(
    q: Seq<Vec<IndexedPacket<P, SIZE>>>,
) -> Seq<Seq<IndexedPacket<P, SIZE>>> {
    Seq::new(q.len(), |i: int| q[i]@)
}

/// Encodes a batch: for each bucket its length as one byte, then its packets.
/// A bucket's length is written modulo 256.
pub fn serialize_queue<P: Packet<SIZE>, const SIZE: usize>(
    packets: &Vec<Vec<IndexedPacket<P, SIZE>>>,
) -> (bytes: Vec<u8>)
    ensures
        bytes@ == queue_bytes(queue_view(packets@)),
{
    let mut bytes: Vec<u8> = Vec::new();
    let mut i: usize = 0;
    while i < packets.len()
        invariant
            i <= packets@.len(),
            bytes@ == queue_bytes(queue_view(packets@).take(i as int)),
        decreases packets@.len() - i,
    {
        let bucket = &packets[i];
        let ghost before = bytes@;
        bytes.push(bucket.len() as u8);
        let mut k: usize = 0;
        while k < bucket.len()
            invariant
                k <= bucket@.len(),
                bytes@ == before + seq![bucket@.len() as u8] + bucket_bytes(bucket@.take(k as int)),
            decreases bucket@.len() - k,
        {
            let mut one = bucket[k].to_bytes();
            bytes.append(&mut one);
            proof {
                assert(bucket@.take(k + 1).drop_last() =~= bucket@.take(k as int));
                assert(bucket@.take(k + 1).last() == bucket@[k as int]);
                assert(bytes@ =~= before + seq![bucket@.len() as u8] + bucket_bytes(
                    bucket@.take(k + 1),
                ));
            }
            k += 1;
        }
        proof {
            let q = queue_view(packets@);
            assert(bucket@.take(bucket@.len() as int) =~= bucket@);
            assert(q.take(i + 1).drop_last() =~= q.take(i as int));
            assert(q.take(i + 1).last() == bucket@);
            assert(bytes@ =~= queue_bytes(q.take(i + 1)));
        }
        i += 1;
    }
    proof {
        assert(queue_view(packets@).take(i as int) =~= queue_view(packets@));
    }
    bytes
}

/// Number of bytes of a bucket of `count` packets of `size` bytes each.
pub open spec fn frame_len(count: nat, size: nat) -> nat {
    1 + count * (size + 1)
}

/// The `count` packets that follow the count byte at the front of `bytes`.
pub open spec fn parse_bucket<P: Packet<SIZE>, const SIZE: usize>(
    bytes: Seq<u8>,
    count: nat,
) -> Seq<IndexedPacket<P, SIZE>> {
    Seq::new(
        count,
        |k: int| packet_at::<P, SIZE>(bytes.subrange(1 + k * (SIZE + 1), 1 + (k + 1) * (SIZE + 1))),
    )
}

/// The whole buckets at the front of `bytes`: reading stops at the end of the bytes or at
/// the first bucket that the bytes do not hold in full.
pub open spec fn parse_queue<P: Packet<SIZE>, const SIZE: usize>(bytes: Seq<u8>) -> Seq<
    Seq<IndexedPacket<P, SIZE>>,
>
    decreases bytes.len(),
{
    if bytes.len() == 0 {
        Seq::empty()
    } else {
        let n = frame_len(bytes[0] as nat, SIZE as nat);
        if n <= bytes.len() {
            seq![parse_bucket::<P, SIZE>(bytes, bytes[0] as nat)] + parse_queue::<P, SIZE>(
                bytes.skip(n as int),
            )
        } else {
            Seq::empty()
        }
    }
}

/// Number of bytes that the whole buckets at the front of `bytes` take.
pub open spec fn parsed_len(bytes: Seq<u8>, size: nat) -> nat
    decreases bytes.len(),
{
    if bytes.len() == 0 {
        0
    } else {
        let n = frame_len(bytes[0] as nat, size);
        if n <= bytes.len() {
            n + parsed_len(bytes.skip(n as int), size)
        } else {
            0
        }
    }
}

/// The whole buckets never take more bytes than there are.
pub proof fn lemma_parsed_len_bound(bytes: Seq<u8>, size: nat)
    ensures
        parsed_len(bytes, size) <= bytes.len(),
    decreases bytes.len(),
{
    if bytes.len() != 0 {
        let n = frame_len(bytes[0] as nat, size);
        if n <= bytes.len() {
            lemma_parsed_len_bound(bytes.skip(n as int), size);
        }
    }
}

/// Decodes the whole buckets at the front of `bytes` and moves what is left over, the
/// start of a bucket that has not arrived in full, to the front of the buffer. Returns the
/// buckets and the number of bytes left over.
pub fn deserialize_queue<P: Packet<SIZE>, const SIZE: usize>(bytes: &mut [u8]) -> (result: (
    Vec<Vec<IndexedPacket<P, SIZE>>>,
    usize,
))
    ensures
        queue_view(result.0@) == parse_queue::<P, SIZE>(old(bytes)@),
        result.1 == old(bytes)@.len() - parsed_len(old(bytes)@, SIZE as nat),
        final(bytes)@.len() == old(bytes)@.len(),
        final(bytes)@.take(result.1 as int) == old(bytes)@.skip(
            old(bytes)@.len() - result.1,
        ),
        forall|k: int| result.1 <= k < old(bytes)@.len() ==> final(bytes)@[k] == old(bytes)@[k],
{
    let mut result: Vec<Vec<IndexedPacket<P, SIZE>>> = Vec::new();
    let mut ind: usize = 0;
    let total = bytes.len();
    let ghost all = bytes@;
    proof {
        assert(all.skip(0) =~= all);
        assert(queue_view(result@) =~= Seq::empty());
    }
    let mut stuck = false;
    while ind < total && !stuck
        invariant
            ind <= total,
            total == all.len(),
            bytes@ == all,
            parse_queue::<P, SIZE>(all) == queue_view(result@) + parse_queue::<P, SIZE>(
                all.skip(ind as int),
            ),
            parsed_len(all, SIZE as nat) == ind + parsed_len(all.skip(ind as int), SIZE as nat),
            stuck ==> ind < total && parsed_len(all.skip(ind as int), SIZE as nat) == 0,
        decreases total - ind + (if stuck { 0int } else { 1int }),
    {
        let len = bytes[ind] as usize;
        proof {
            assert(len * (SIZE + 1) <= 255 * 0x1_0000_0000_0000_0000) by (nonlinear_arith)
                requires
                    len <= 255,
                    SIZE + 1 <= 0x1_0000_0000_0000_0000,
            ;
        }
        let need: u128 = (len as u128) * (SIZE as u128 + 1) + 1;
        let avail: u128 = (total - ind) as u128;
        let ghost rest = all.skip(ind as int);
        proof {
            assert(rest[0] == all[ind as int]);
            assert(need == frame_len(len as nat, SIZE as nat));
        }
        if need <= avail {
            assert(ind + 1 + len * (SIZE + 1) <= total);
            let mut packets: Vec<IndexedPacket<P, SIZE>> = Vec::new();
            let mut k: usize = 0;
            while k < len
                invariant
                    k <= len,
                    len <= 255,
                    ind < total,
                    total == all.len(),
                    bytes@ == all,
                    rest == all.skip(ind as int),
                    ind + 1 + len * (SIZE + 1) <= total,
                    packets@ == parse_bucket::<P, SIZE>(rest, len as nat).take(k as int),
                decreases len - k,
            {
                proof {
                    assert(k * (SIZE + 1) + (SIZE + 1) <= len * (SIZE + 1)) by (nonlinear_arith)
                        requires
                            k < len,
                    ;
                    assert((k + 1) * (SIZE + 1) == k * (SIZE + 1) + (SIZE + 1))
                        by (nonlinear_arith);
                }
                let at: usize = ind + 1 + k * (SIZE + 1);
                let p = read_packet::<P, SIZE>(bytes, at);
                packets.push(p);
                proof {
                    let whole = parse_bucket::<P, SIZE>(rest, len as nat);
                    assert(all.subrange(at as int, at + SIZE + 1) =~= rest.subrange(
                        1 + k * (SIZE + 1),
                        1 + (k + 1) * (SIZE + 1),
                    ));
                    assert(whole[k as int] == p);
                    assert(packets@ =~= whole.take(k + 1));
                }
                k += 1;
            }
            proof {
                let whole = parse_bucket::<P, SIZE>(rest, len as nat);
                assert(whole.take(len as int) =~= whole);
                assert(rest.skip(need as int) =~= all.skip(ind + need));
                assert(queue_view(result@.push(packets)) =~= queue_view(result@) + seq![whole]);
                assert(queue_view(result@) + (seq![whole] + parse_queue::<P, SIZE>(
                    rest.skip(need as int),
                )) =~= queue_view(result@) + seq![whole] + parse_queue::<P, SIZE>(
                    rest.skip(need as int),
                ));
            }
            result.push(packets);
            ind += need as usize;
        } else {
            stuck = true;
        }
    }
    let res_len: usize = if stuck {
        total - ind
    } else {
        0
    };
    proof {
        if !stuck {
            assert(all.skip(ind as int).len() == 0);
        }
    }
    let mut k: usize = 0;
    while k < res_len
        invariant
            k <= res_len,
            res_len <= total - ind,
            total == all.len(),
            bytes@.len() == total,
            res_len > 0 ==> res_len == total - ind,
            forall|m: int| 0 <= m < k ==> bytes@[m] == all[ind + m],
            forall|m: int| k <= m < total ==> bytes@[m] == all[m],
        decreases res_len - k,
    {
        let b = bytes[ind + k];
        bytes[k] = b;
        k += 1;
    }
    proof {
        assert(bytes@.take(res_len as int) =~= all.skip(total - res_len));
    }
    (result, res_len)
}

/// A bucket that the wire form can carry: at most 255 packets, each of them faithful.
pub open spec fn valid_bucket<P: Packet<SIZE>, const SIZE: usize>(
    b: Seq<IndexedPacket<P, SIZE>>,
) -> bool {
    &&& b.len() <= 255
    &&& forall|k: int| 0 <= k < b.len() ==> faithful::<P, SIZE>(#[trigger] b[k].contents)
}

/// A batch whose buckets are all valid.
pub open spec fn valid_batch<P: Packet<SIZE>, const SIZE: usize>(
    q: Seq<Seq<IndexedPacket<P, SIZE>>>,
) -> bool {
    forall|i: int| 0 <= i < q.len() ==> valid_bucket(#[trigger] q[i])
}

/// The packets of a bucket take `SIZE + 1` bytes each.
pub proof fn lemma_bucket_bytes_len<P: Packet<SIZE>, const SIZE: usize>(
    b: Seq<IndexedPacket<P, SIZE>>,
)
    ensures
        bucket_bytes(b).len() == b.len() * (SIZE + 1),
        frame_bytes(b).len() == frame_len(b.len(), SIZE as nat),
    decreases b.len(),
{
    if b.len() > 0 {
        lemma_bucket_bytes_len(b.drop_last());
        b.last().contents.lemma_wire_len();
        assert((b.len() - 1) * (SIZE + 1) + (SIZE + 1) == b.len() * (SIZE + 1))
            by (nonlinear_arith);
    }
}

/// The `k`-th packet of a bucket stands at offset `k * (SIZE + 1)` of its bytes.
proof fn lemma_bucket_bytes_at<P: Packet<SIZE>, const SIZE: usize>(
    b: Seq<IndexedPacket<P, SIZE>>,
    k: int,
)
    requires
        0 <= k < b.len(),
    ensures
        0 <= k * (SIZE + 1),
        (k + 1) * (SIZE + 1) == k * (SIZE + 1) + SIZE + 1,
        (k + 1) * (SIZE + 1) <= bucket_bytes(b).len(),
        bucket_bytes(b).subrange(k * (SIZE + 1), (k + 1) * (SIZE + 1)) == packet_bytes(b[k]),
    decreases b.len(),
{
    lemma_bucket_bytes_len(b);
    lemma_bucket_bytes_len(b.drop_last());
    b.last().contents.lemma_wire_len();
    assert((k + 1) * (SIZE + 1) == k * (SIZE + 1) + SIZE + 1) by (nonlinear_arith);
    assert(0 <= k * (SIZE + 1)) by (nonlinear_arith)
        requires
            0 <= k,
    ;
    assert((b.len() - 1) * (SIZE + 1) + (SIZE + 1) == b.len() * (SIZE + 1)) by (nonlinear_arith);
    if k == b.len() - 1 {
        assert(bucket_bytes(b).subrange(k * (SIZE + 1), (k + 1) * (SIZE + 1)) =~= packet_bytes(
            b[k],
        ));
    } else {
        lemma_bucket_bytes_at(b.drop_last(), k);
        assert(bucket_bytes(b).subrange(k * (SIZE + 1), (k + 1) * (SIZE + 1))
            =~= bucket_bytes(b.drop_last()).subrange(k * (SIZE + 1), (k + 1) * (SIZE + 1)));
    }
}

/// A valid bucket's wire form, followed by any bytes, reads as that bucket followed by
/// what the other bytes read as.
pub proof fn lemma_parse_frame<P: Packet<SIZE>, const SIZE: usize>(
    b: Seq<IndexedPacket<P, SIZE>>,
    rest: Seq<u8>,
)
    requires
        valid_bucket(b),
    ensures
        frame_bytes(b).len() == frame_len(b.len(), SIZE as nat),
        parse_queue::<P, SIZE>(frame_bytes(b) + rest) == seq![b] + parse_queue::<P, SIZE>(rest),
        parsed_len(frame_bytes(b) + rest, SIZE as nat) == frame_len(b.len(), SIZE as nat)
            + parsed_len(rest, SIZE as nat),
{
    let bytes = frame_bytes(b) + rest;
    lemma_bucket_bytes_len(b);
    let n = frame_len(b.len(), SIZE as nat);
    assert(bytes[0] == b.len() as u8);
    assert(bytes[0] as nat == b.len());
    assert(bytes.skip(n as int) =~= rest);
    let pb = parse_bucket::<P, SIZE>(bytes, b.len());
    assert forall|k: int| 0 <= k < b.len() implies pb[k] == b[k] by {
        lemma_bucket_bytes_at(b, k);
        b[k].contents.lemma_wire_len();
        let chunk = bytes.subrange(1 + k * (SIZE + 1), 1 + (k + 1) * (SIZE + 1));
        assert(chunk =~= bucket_bytes(b).subrange(k * (SIZE + 1), (k + 1) * (SIZE + 1)));
        assert(chunk.skip(1) =~= b[k].contents.wire());
        assert(chunk[0] == b[k].id);
        assert(faithful::<P, SIZE>(b[k].contents));
    }
    assert(pb =~= b);
}

/// The wire form of a batch starts with the wire form of its first bucket.
pub proof fn lemma_queue_bytes_front<P: Packet<SIZE>, const SIZE: usize>(
    q: Seq<Seq<IndexedPacket<P, SIZE>>>,
)
    requires
        q.len() > 0,
    ensures
        queue_bytes(q) == frame_bytes(q[0]) + queue_bytes(q.skip(1)),
    decreases q.len(),
{
    if q.len() == 1 {
        assert(q.drop_last() =~= Seq::empty());
        assert(q.skip(1) =~= Seq::empty());
        assert(queue_bytes(q) =~= frame_bytes(q[0]) + queue_bytes(q.skip(1)));
    } else {
        lemma_queue_bytes_front(q.drop_last());
        assert(q.drop_last().skip(1) =~= q.skip(1).drop_last());
        assert(q.skip(1).last() == q.last());
        assert(queue_bytes(q) =~= frame_bytes(q[0]) + queue_bytes(q.skip(1)));
    }
}

/// Decoding the wire form of a valid batch gives the batch back and leaves no byte over.
pub proof fn lemma_queue_round_trip<P: Packet<SIZE>, const SIZE: usize>(
    q: Seq<Seq<IndexedPacket<P, SIZE>>>,
)
    requires
        valid_batch(q),
    ensures
        parse_queue::<P, SIZE>(queue_bytes(q)) == q,
        parsed_len(queue_bytes(q), SIZE as nat) == queue_bytes(q).len(),
    decreases q.len(),
{
    if q.len() == 0 {
        assert(parse_queue::<P, SIZE>(queue_bytes(q)) =~= q);
    } else {
        let tail = q.skip(1);
        lemma_queue_bytes_front(q);
        assert forall|i: int| 0 <= i < tail.len() implies valid_bucket(#[trigger] tail[i]) by {
            assert(tail[i] == q[i + 1]);
        }
        lemma_queue_round_trip(tail);
        lemma_parse_frame(q[0], queue_bytes(tail));
        assert(seq![q[0]] + tail =~= q);
    }
}

/// Split and stitch. Cut the wire form of a valid batch anywhere. Decoding the part before
/// the cut gives the first buckets of the batch; what is left over is shorter than the
/// bucket that the cut fell into; and decoding the left-over bytes followed by the part
/// after the cut gives the remaining buckets.
pub proof fn lemma_split_stitch<P: Packet<SIZE>, const SIZE: usize>(
    q: Seq<Seq<IndexedPacket<P, SIZE>>>,
    cut: int,
)
    requires
        valid_batch(q),
        0 <= cut <= queue_bytes(q).len(),
    ensures
        ({
            let whole = queue_bytes(q);
            let head = whole.take(cut);
            let first = parse_queue::<P, SIZE>(head);
            let used = parsed_len(head, SIZE as nat);
            &&& used <= cut
            &&& first.len() <= q.len()
            &&& first == q.take(first.len() as int)
            &&& cut - used > 0 ==> first.len() < q.len() && cut - used < frame_len(
                q[first.len() as int].len(),
                SIZE as nat,
            )
            &&& parse_queue::<P, SIZE>(head.skip(used as int) + whole.skip(cut)) == q.skip(
                first.len() as int,
            )
        }),
    decreases q.len(),
{
    let whole = queue_bytes(q);
    let head = whole.take(cut);
    lemma_queue_round_trip(q);
    if q.len() == 0 {
        assert(head.skip(0) + whole.skip(cut) =~= whole);
        assert(q.skip(0) =~= q);
        assert(parse_queue::<P, SIZE>(head) =~= q.take(0));
    } else {
        let b = q[0];
        let tail = q.skip(1);
        let rest = queue_bytes(tail);
        lemma_queue_bytes_front(q);
        lemma_bucket_bytes_len(b);
        let n = frame_len(b.len(), SIZE as nat);
        assert(whole[0] == b.len() as u8);
        if cut < n {
            assert(head.skip(0) + whole.skip(cut) =~= whole);
            assert(q.skip(0) =~= q);
            if cut > 0 {
                assert(head[0] == whole[0]);
            }
            assert(parse_queue::<P, SIZE>(head) =~= q.take(0));
        } else {
            let sub = rest.take(cut - n);
            assert(head =~= frame_bytes(b) + sub);
            assert forall|i: int| 0 <= i < tail.len() implies valid_bucket(
                #[trigger] tail[i],
            ) by {
                assert(tail[i] == q[i + 1]);
            }
            lemma_parse_frame(b, sub);
            lemma_split_stitch(tail, cut - n);
            let first1 = parse_queue::<P, SIZE>(sub);
            let used1 = parsed_len(sub, SIZE as nat);
            let first = parse_queue::<P, SIZE>(head);
            let used = parsed_len(head, SIZE as nat);
            assert(first == seq![b] + first1);
            assert(used == n + used1);
            assert(head.skip(used as int) + whole.skip(cut) =~= sub.skip(used1 as int)
                + rest.skip(cut - n));
            assert(q.skip(first.len() as int) =~= tail.skip(first1.len() as int));
            assert(first =~= q.take(first.len() as int)) by {
                assert(first1 == tail.take(first1.len() as int));
                assert forall|i: int| 0 <= i < first.len() implies first[i] == q[i] by {
                    if i > 0 {
                        assert(first[i] == first1[i - 1]);
                        assert(tail.take(first1.len() as int)[i - 1] == tail[i - 1]);
                    }
                }
            }
            if cut - used > 0 {
                assert(q[first.len() as int] == tail[first1.len() as int]);
            }
        }
    }
}

} // verus!
