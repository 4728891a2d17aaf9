//! Payload packer: maps the byte stream to three-byte color chunks, padded
//! past its end with the sentinel byte, and states how a recovered byte
//! stream is cut back at the first sentinel.

use vstd::prelude::*;

verus! {

/// The sentinel byte: pads the final partial color triple and marks
/// end-of-data during decoding. It may not occur in a payload.
pub const SENTINEL: u8 = 0x1A;

/// The byte at `index` of the sentinel-padded payload stream: the payload
/// itself, extended past its end by an endless run of sentinel bytes.
pub open spec fn padded_byte(payload: Seq<u8>, index: int) -> u8 {
    if 0 <= index < payload.len() {
        payload[index]
    } else {
        SENTINEL
    }
}

/// The color triple whose channels are bytes `index`, `index + 1` and
/// `index + 2` of the sentinel-padded payload stream.
pub open spec fn chunk_of(payload: Seq<u8>, index: int) -> (u8, u8, u8) {
    (padded_byte(payload, index), padded_byte(payload, index + 1), padded_byte(payload, index + 2))
}

/// No byte of `s` is the sentinel.
pub open spec fn sentinel_free(s: Seq<u8>) -> bool {
    forall|i: int| 0 <= i < s.len() ==> s[i] != SENTINEL
}

/// The prefix of `s` that precedes its first sentinel byte; all of `s` when
/// no byte is the sentinel.
pub open spec fn take_until_sentinel(s: Seq<u8>) -> Seq<u8>
    decreases s.len(),
{
    if s.len() == 0 {
        s
    } else if s[0] == SENTINEL {
        Seq::empty()
    } else {
        seq![s[0]] + take_until_sentinel(s.subrange(1, s.len() as int))
    }
}

/// Cutting at the first sentinel leaves a sentinel-free stream untouched.
pub proof fn lemma_take_until_sentinel_free(s: Seq<u8>)
    requires
        sentinel_free(s),
    ensures
        take_until_sentinel(s) == s,
    decreases s.len(),
{
    if s.len() == 0 {
    } else {
        lemma_take_until_sentinel_free(s.subrange(1, s.len() as int));
        assert(take_until_sentinel(s) =~= s);
    }
}

/// A sentinel-free prefix passes through the cut unchanged.
pub proof fn lemma_take_until_after_free_prefix(s1: Seq<u8>, s2: Seq<u8>)
    requires
        sentinel_free(s1),
    ensures
        take_until_sentinel(s1 + s2) == s1 + take_until_sentinel(s2),
    decreases s1.len(),
{
    if s1.len() == 0 {
        assert(s1 + s2 =~= s2);
        assert(s1 + take_until_sentinel(s2) =~= take_until_sentinel(s2));
    } else {
        let s = s1 + s2;
        assert(s[0] == s1[0]);
        assert(s.subrange(1, s.len() as int) =~= s1.subrange(1, s1.len() as int) + s2);
        lemma_take_until_after_free_prefix(s1.subrange(1, s1.len() as int), s2);
        assert(seq![s1[0]] + (s1.subrange(1, s1.len() as int) + take_until_sentinel(s2)) =~= s1
            + take_until_sentinel(s2));
    }
}

/// Everything after a prefix that already holds a sentinel is discarded.
pub proof fn lemma_take_until_stops_in_prefix(s1: Seq<u8>, s2: Seq<u8>)
    requires
        !sentinel_free(s1),
    ensures
        take_until_sentinel(s1 + s2) == take_until_sentinel(s1),
    decreases s1.len(),
{
    let s = s1 + s2;
    assert(s1.len() > 0);
    assert(s[0] == s1[0]);
    if s1[0] == SENTINEL {
    } else {
        let t1 = s1.subrange(1, s1.len() as int);
        assert(!sentinel_free(t1)) by {
            let i = choose|i: int| 0 <= i < s1.len() && s1[i] == SENTINEL;
            assert(t1[i - 1] == SENTINEL);
        }
        assert(s.subrange(1, s.len() as int) =~= t1 + s2);
        lemma_take_until_stops_in_prefix(t1, s2);
    }
}

/// Cutting the sentinel-padded stream of a sentinel-free payload at the
/// first sentinel recovers exactly the payload, as long as the stream is
/// long enough to reach the padding.
pub proof fn lemma_take_until_padded_stream(payload: Seq<u8>, n: nat)
    requires
        sentinel_free(payload),
        n >= payload.len() + 1,
    ensures
        take_until_sentinel(Seq::new(n, |i: int| padded_byte(payload, i))) == payload,
    decreases payload.len(),
{
    let s = Seq::new(n, |i: int| padded_byte(payload, i));
    if payload.len() == 0 {
        assert(s[0] == SENTINEL);
        assert(take_until_sentinel(s) =~= payload);
    } else {
        let tail = payload.subrange(1, payload.len() as int);
        assert(s[0] == payload[0]);
        assert(s.subrange(1, n as int) =~= Seq::new((n - 1) as nat, |i: int| padded_byte(tail, i)));
        lemma_take_until_padded_stream(tail, (n - 1) as nat);
        assert(seq![payload[0]] + tail =~= payload);
    }
}

/// Reads one byte of the sentinel-padded payload stream.
pub fn stream_byte(payload: &[u8], index: usize) -> (b: u8)
    ensures
        b == padded_byte(payload@, index as int),
{
    if index < payload.len() {
        payload[index]
    } else {
        SENTINEL
    }
}

/// The color triple for the data cell whose first byte sits at `index`:
/// three consecutive bytes of the payload, padded with the sentinel once the
/// payload runs out.
pub fn get_color_chunk(payload: &[u8], index: usize) -> (c: (u8, u8, u8))
    requires
        index + 2 <= usize::MAX,
    ensures
        c == chunk_of(payload@, index as int),
{
    (stream_byte(payload, index), stream_byte(payload, index + 1), stream_byte(payload, index + 2))
}

/// Relies on `String::push`: appends one character at the end.
#[verifier::external_body]
fn push_char(s: &mut String, c: char)
    ensures
        final(s)@ == old(s)@ + seq![c],
{
    s.push(c);
}

/// Reads a color triple back as text: each channel byte becomes the
/// character with that code, in channel order.
pub fn get_chunk_from_color(color: [u8; 3]) -> (s: String)
    ensures
        s@ == seq![color[0] as char, color[1] as char, color[2] as char],
{
    let mut s = String::from_str("");
    proof {
        reveal_strlit("");
    }
    push_char(&mut s, color[0] as char);
    push_char(&mut s, color[1] as char);
    push_char(&mut s, color[2] as char);
    proof {
        assert(s@ =~= seq![color[0] as char, color[1] as char, color[2] as char]);
    }
    s
}

/// Whether the payload may be encoded: a payload that contains the sentinel
/// byte would be silently truncated there on decode, so it is rejected.
pub fn payload_is_sentinel_free(payload: &[u8]) -> (r: bool)
    ensures
        r == sentinel_free(payload@),
{
    let mut i: usize = 0;
    while i < payload.len()
        invariant
            i <= payload@.len(),
            forall|j: int| 0 <= j < i ==> payload@[j] != SENTINEL,
        decreases payload@.len() - i,
    {
        if payload[i] == SENTINEL {
            return false;
        }
        i = i + 1;
    }
    true
}

} // verus!
