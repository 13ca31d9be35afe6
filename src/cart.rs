//! Byte-order detection and normalisation, and the cartridge checksum.
use vstd::prelude::*;
use byteorder::ByteOrder;

verus! {

/// The two byte orderings a cartridge image can be stored in.
#[derive(Clone, Copy, Debug, PartialEq, Eq, Structural)]
pub enum ByteSwapping {
    /// The console's own order: the image starts with `80 37 12 40`.
    Native,
    /// Every 16-bit pair swapped: the image starts with `37 80 40 12`.
    U16LittleEndian,
}

impl ByteSwapping {
    /// A readable name of the ordering.
    pub fn name(&self) -> (r: &'static str)
        ensures
            *self == ByteSwapping::Native ==> r@ == "Native"@,
            *self == ByteSwapping::U16LittleEndian ==> r@ == "U16 Little Endian"@,
    {
        match self {
            ByteSwapping::Native => "Native",
            ByteSwapping::U16LittleEndian => "U16 Little Endian",
        }
    }
}

/// The ordering that the magic at the start of `b` announces, if any.
pub open spec fn swapping_of(b: Seq<u8>) -> Option<ByteSwapping> {
    if b.len() < 4 {
        None
    } else if b[0] == 0x80 && b[1] == 0x37 && b[2] == 0x12 && b[3] == 0x40 {
        Some(ByteSwapping::Native)
    } else if b[0] == 0x37 && b[1] == 0x80 && b[2] == 0x40 && b[3] == 0x12 {
        Some(ByteSwapping::U16LittleEndian)
    } else {
        None
    }
}

/// Classifies the byte ordering of `buffer` by its first four bytes.
pub fn detect_swapping(buffer: &[u8]) -> (r: Option<ByteSwapping>)
    ensures
        r == swapping_of(buffer@),
        buffer@.len() < 4 ==> r.is_none(),
{
    if buffer.len() < 4 {
        return None;
    }
    let (b0, b1, b2, b3) = (buffer[0], buffer[1], buffer[2], buffer[3]);
    if b0 == 0x80 && b1 == 0x37 && b2 == 0x12 && b3 == 0x40 {
        Some(ByteSwapping::Native)
    } else if b0 == 0x37 && b1 == 0x80 && b2 == 0x40 && b3 == 0x12 {
        Some(ByteSwapping::U16LittleEndian)
    } else {
        None
    }
}

/// Why an image could not be brought to another byte ordering.
#[derive(Clone, Copy, Debug, PartialEq, Eq, Structural)]
pub enum SwapError {
    /// The first four bytes match neither ordering's magic.
    UnknownOriginalSwapping,
    /// The image has an odd number of bytes, so it has no 16-bit pairs.
    OddLength,
}

/// `b` with the two bytes of every 16-bit pair exchanged.
pub open spec fn pairs_swapped(b: Seq<u8>) -> Seq<u8> {
    Seq::new(b.len(), |i: int| if i % 2 == 0 { b[i + 1] } else { b[i - 1] })
}

/// What bringing `b` to the ordering `target` gives: the new contents, or why
/// it is refused.
pub open spec fn swapped_to(target: ByteSwapping, b: Seq<u8>) -> Result<Seq<u8>, SwapError> {
    match swapping_of(b) {
        None => Err(SwapError::UnknownOriginalSwapping),
        Some(current) => if b.len() % 2 != 0 {
            Err(SwapError::OddLength)
        } else if current == target {
            Ok(b)
        } else {
            Ok(pairs_swapped(b))
        },
    }
}

/// Brings `buffer` to the byte ordering `new_swapping`, in place. On an error
/// the buffer is left as it was.
pub fn swap_cart_to(new_swapping: ByteSwapping, buffer: &mut [u8]) -> (r: Result<(), SwapError>)
    ensures
        match swapped_to(new_swapping, old(buffer)@) {
            Ok(b) => r == Ok::<(), SwapError>(()) && final(buffer)@ == b,
            Err(e) => r == Err::<(), SwapError>(e) && final(buffer)@ == old(buffer)@,
        },
{
    let original_swapping = match detect_swapping(buffer) {
        Some(swapping) => swapping,
        None => {
            return Err(SwapError::UnknownOriginalSwapping);
        },
    };
    if buffer.len() % 2 != 0 {
        return Err(SwapError::OddLength);
    }
    if original_swapping == new_swapping {
        return Ok(());
    }
    let ghost orig = buffer@;
    let half = buffer.len() / 2;
    let mut ii: usize = 0;
    while ii < half
        invariant
            orig.len() % 2 == 0,
            half == orig.len() / 2,
            orig.len() <= usize::MAX,
            buffer@.len() == orig.len(),
            ii <= half,
            forall|j: int| 0 <= j < 2 * ii ==> #[trigger] buffer@[j] == pairs_swapped(orig)[j],
            forall|j: int| 2 * ii <= j < orig.len() ==> #[trigger] buffer@[j] == orig[j],
        decreases half - ii,
    {
        let cur_base = ii * 2;
        let temp = buffer[cur_base];
        buffer[cur_base] = buffer[cur_base + 1];
        buffer[cur_base + 1] = temp;
        ii = ii + 1;
    }
    proof {
        assert(buffer@ =~= pairs_swapped(orig));
    }
    Ok(())
}

/// A buffer of fewer than four bytes has no recognisable ordering.
pub proof fn lemma_short_buffer_undetermined(b: Seq<u8>)
    requires
        b.len() < 4,
    ensures
        swapping_of(b).is_none(),
{
}

/// Whatever follows it, the magic `80 37 12 40` marks native order and
/// `37 80 40 12` the 16-bit swapped order.
pub proof fn lemma_magic_decides(b: Seq<u8>)
    requires
        b.len() >= 4,
    ensures
        b.take(4) == seq![0x80u8, 0x37, 0x12, 0x40] ==> swapping_of(b) == Some(
            ByteSwapping::Native,
        ),
        b.take(4) == seq![0x37u8, 0x80, 0x40, 0x12] ==> swapping_of(b) == Some(
            ByteSwapping::U16LittleEndian,
        ),
{
    if b.take(4) == seq![0x80u8, 0x37, 0x12, 0x40] {
        assert(b[0] == b.take(4)[0] && b[1] == b.take(4)[1]);
        assert(b[2] == b.take(4)[2] && b[3] == b.take(4)[3]);
    }
    if b.take(4) == seq![0x37u8, 0x80, 0x40, 0x12] {
        assert(b[0] == b.take(4)[0] && b[1] == b.take(4)[1]);
        assert(b[2] == b.take(4)[2] && b[3] == b.take(4)[3]);
    }
}

/// Swapping the pairs twice gives back the bytes one started from.
pub proof fn lemma_pairs_swapped_twice(b: Seq<u8>)
    requires
        b.len() % 2 == 0,
    ensures
        pairs_swapped(pairs_swapped(b)) == b,
{
    let once = pairs_swapped(b);
    assert forall|i: int| 0 <= i < b.len() implies #[trigger] pairs_swapped(once)[i] == b[i] by {
        if i % 2 == 0 {
            assert(once[i + 1] == b[i]);
        } else {
            assert(once[i - 1] == b[i]);
        }
    }
    assert(pairs_swapped(once) =~= b);
}

/// Swapping the pairs of an image of known ordering gives the other ordering.
pub proof fn lemma_pairs_swapped_flips_ordering(b: Seq<u8>)
    requires
        b.len() % 2 == 0,
        swapping_of(b).is_some(),
    ensures
        swapping_of(pairs_swapped(b)) == Some(
            if swapping_of(b) == Some(ByteSwapping::Native) {
                ByteSwapping::U16LittleEndian
            } else {
                ByteSwapping::Native
            },
        ),
{
    let s = pairs_swapped(b);
    assert(s[0] == b[1] && s[1] == b[0] && s[2] == b[3] && s[3] == b[2]);
}

/// Bringing an image to the ordering it already has changes no byte: it
/// either succeeds with the same bytes or refuses an odd length.
pub proof fn lemma_swap_to_current_is_identity(b: Seq<u8>, current: ByteSwapping)
    requires
        swapping_of(b) == Some(current),
    ensures
        b.len() % 2 == 0 ==> swapped_to(current, b) == Ok::<Seq<u8>, SwapError>(b),
        b.len() % 2 != 0 ==> swapped_to(current, b) == Err::<Seq<u8>, SwapError>(
            SwapError::OddLength,
        ),
{
}

/// Bringing an even-length image of ordering `o` to the other ordering `o2`
/// and then back to `o` restores it exactly.
pub proof fn lemma_swap_round_trip(b: Seq<u8>, o: ByteSwapping, o2: ByteSwapping)
    requires
        b.len() % 2 == 0,
        swapping_of(b) == Some(o),
        o != o2,
    ensures
        swapped_to(o2, b) is Ok,
        swapped_to(o, swapped_to(o2, b)->Ok_0) == Ok::<Seq<u8>, SwapError>(b),
{
    lemma_pairs_swapped_flips_ordering(b);
    lemma_pairs_swapped_twice(b);
    assert(pairs_swapped(b).len() == b.len());
}

/// An odd-length image whose ordering is known is refused for its length,
/// whatever the target.
pub proof fn lemma_odd_length_refused(b: Seq<u8>, target: ByteSwapping)
    requires
        b.len() % 2 != 0,
        swapping_of(b).is_some(),
    ensures
        swapped_to(target, b) == Err::<Seq<u8>, SwapError>(SwapError::OddLength),
{
}

/// An image whose first four bytes match neither magic is refused as of
/// unknown ordering, whatever its length and the target.
pub proof fn lemma_unknown_magic_refused(b: Seq<u8>, target: ByteSwapping)
    requires
        b.len() >= 4,
        !(b[0] == 0x80 && b[1] == 0x37 && b[2] == 0x12 && b[3] == 0x40),
        !(b[0] == 0x37 && b[1] == 0x80 && b[2] == 0x40 && b[3] == 0x12),
    ensures
        swapped_to(target, b) == Err::<Seq<u8>, SwapError>(SwapError::UnknownOriginalSwapping),
{
}

/// Why a checksum could not be computed.
#[derive(Clone, Copy, Debug, PartialEq, Eq, Structural)]
pub enum ChecksumError {
    /// The image ends before the checksum window does.
    NotLongEnough,
    /// A word of the window could not be read.
    ErrorReadingBuffer,
}

/// Offset of the first byte of the checksum window.
pub const CHECKSUM_START: usize = 0x1000;

/// Length in bytes of the checksum window.
pub const CHECKSUM_LENGTH: usize = 0x100000;

/// Offset one past the last byte of the checksum window.
pub const CHECKSUM_END: usize = CHECKSUM_START + CHECKSUM_LENGTH;

/// Number of 32-bit words in the checksum window.
pub const CHECKSUM_WORDS: usize = CHECKSUM_LENGTH / 4;

/// The value every accumulator starts from.
pub const CHECKSUM_START_VALUE: u32 = 0xf8ca4ddc;

/// The big-endian 32-bit word stored at `b[off..off + 4]`.
pub open spec fn be_u32_at(b: Seq<u8>, off: int) -> u32 {
    (b[off] as int * 0x100_0000 + b[off + 1] as int * 0x1_0000 + b[off + 2] as int * 0x100
        + b[off + 3] as int) as u32
}

/// Relies on byteorder's `BigEndian::read_u32`: the first four bytes of its
/// argument as a big-endian word (it panics on fewer than four).
#[verifier::external_body]
pub(crate) fn read_be_u32(buffer: &[u8], off: usize) -> (r: u32)
    requires
        off + 4 <= buffer@.len(),
    ensures
        r == be_u32_at(buffer@, off as int),
{
    byteorder::BigEndian::read_u32(&buffer[off..])
}

/// `x` rotated left by `n` bits, for `n < 32`.
pub open spec fn rotl32(x: u32, n: u32) -> u32 {
    (x << n) | (x >> ((32 - n) % 32) as u32)
}

/// Rotates `i` left by `b` bits; a rotation by zero leaves `i` as it is.
pub fn rol_u32(i: u32, b: u32) -> (r: u32)
    requires
        b < 32,
    ensures
        r == rotl32(i, b),
{
    let lhs = i << b;
    let rhs: u32 = if b == 0 {
        0
    } else {
        i >> (32 - b)
    };
    assert((lhs | rhs) == rotl32(i, b)) by (bit_vector)
        requires
            b < 32,
            lhs == i << b,
            rhs == (if b == 0 { 0 } else { i >> (32 - b) as u32 }),
    ;
    lhs | rhs
}

/// Addition modulo 2^32.
pub open spec fn wadd(x: u32, y: u32) -> u32 {
    ((x + y) % 0x1_0000_0000) as u32
}

proof fn lemma_wrapping_add(x: u32, y: u32)
    ensures
        x.wrapping_add(y) == wadd(x, y),
{
}

/// The six accumulators of the checksum recurrence.
#[derive(Clone, Copy, Debug, PartialEq, Eq, Structural)]
pub struct Accumulators {
    pub t1: u32,
    pub t2: u32,
    pub t3: u32,
    pub t4: u32,
    pub t5: u32,
    pub t6: u32,
}

/// All six accumulators at their starting value.
pub open spec fn initial_accumulators() -> Accumulators {
    Accumulators {
        t1: CHECKSUM_START_VALUE,
        t2: CHECKSUM_START_VALUE,
        t3: CHECKSUM_START_VALUE,
        t4: CHECKSUM_START_VALUE,
        t5: CHECKSUM_START_VALUE,
        t6: CHECKSUM_START_VALUE,
    }
}

/// One step of the recurrence on the word `c1`. The carry counter `t4` is
/// kept modulo 2^32 here; over one window it never wraps.
pub open spec fn accumulate(s: Accumulators, c1: u32) -> Accumulators {
    let t6 = wadd(s.t6, c1);
    let t4 = if t6 < s.t6 { (s.t4 + 1) as u32 } else { s.t4 };
    let k1 = rotl32(c1, c1 & 0x1f);
    let t5 = wadd(s.t5, k1);
    let t2 = if c1 < s.t2 { s.t2 ^ k1 } else { s.t2 ^ t6 ^ c1 };
    let t1 = wadd(s.t1, c1 ^ t5);
    Accumulators { t1, t2, t3: s.t3 ^ c1, t4, t5, t6 }
}

/// The accumulators after the words of `w`, in order.
pub open spec fn accumulate_all(w: Seq<u32>) -> Accumulators
    decreases w.len(),
{
    if w.len() == 0 {
        initial_accumulators()
    } else {
        accumulate(accumulate_all(w.drop_last()), w.last())
    }
}

/// The checksum window of `b` as a sequence of big-endian words.
pub open spec fn window_words(b: Seq<u8>) -> Seq<u32> {
    Seq::new(
        CHECKSUM_WORDS as nat,
        |i: int| be_u32_at(b, CHECKSUM_START as int + 4 * i),
    )
}

/// The checksum pair of an image in native order that holds the whole window.
pub open spec fn cart_checksum(b: Seq<u8>) -> (u32, u32) {
    let s = accumulate_all(window_words(b));
    (s.t6 ^ s.t4 ^ s.t3, s.t5 ^ s.t2 ^ s.t1)
}

/// The checksum depends on the bytes of the window alone: two images that hold
/// the whole window and agree on it have the same checksum, whatever else
/// they hold.
pub proof fn lemma_checksum_depends_on_window_only(a: Seq<u8>, b: Seq<u8>)
    requires
        a.len() >= CHECKSUM_END,
        b.len() >= CHECKSUM_END,
        a.subrange(CHECKSUM_START as int, CHECKSUM_END as int) == b.subrange(
            CHECKSUM_START as int,
            CHECKSUM_END as int,
        ),
    ensures
        cart_checksum(a) == cart_checksum(b),
{
    assert forall|i: int| 0 <= i < CHECKSUM_WORDS implies #[trigger] window_words(a)[i]
        == window_words(b)[i] by {
        let off = CHECKSUM_START as int + 4 * i;
        let w = a.subrange(CHECKSUM_START as int, CHECKSUM_END as int);
        let v = b.subrange(CHECKSUM_START as int, CHECKSUM_END as int);
        assert(a[off] == w[4 * i] && b[off] == v[4 * i]);
        assert(a[off + 1] == w[4 * i + 1] && b[off + 1] == v[4 * i + 1]);
        assert(a[off + 2] == w[4 * i + 2] && b[off + 2] == v[4 * i + 2]);
        assert(a[off + 3] == w[4 * i + 3] && b[off + 3] == v[4 * i + 3]);
    }
    assert(window_words(a) =~= window_words(b));
}

/// The accumulators after `n` zero words: only `t1` moves, by the start value
/// at each word.
proof fn lemma_zero_words(n: nat)
    ensures
        accumulate_all(Seq::new(n, |i: int| 0u32)) == (Accumulators {
            t1: ((CHECKSUM_START_VALUE as int * (n + 1)) % 0x1_0000_0000) as u32,
            ..initial_accumulators()
        }),
    decreases n,
{
    let c = CHECKSUM_START_VALUE;
    if n > 0 {
        let w = Seq::new(n, |i: int| 0u32);
        assert(w.drop_last() =~= Seq::new((n - 1) as nat, |i: int| 0u32));
        lemma_zero_words((n - 1) as nat);
        let prev = ((c as int * n) % 0x1_0000_0000) as u32;
        assert(rotl32(0, 0u32 & 0x1f) == 0 && c ^ 0 == c && 0u32 ^ c == c) by (bit_vector);
        assert((c as int * n) % 0x1_0000_0000 + c as int == c as int * n % 0x1_0000_0000 + c);
        assert(((c as int * n) % 0x1_0000_0000 + c) % 0x1_0000_0000 == (c as int * (n + 1))
            % 0x1_0000_0000) by (nonlinear_arith);
        assert(wadd(prev, c) == ((c as int * (n + 1)) % 0x1_0000_0000) as u32);
    }
}

/// An image whose window is all zero bytes has the start value as its first
/// checksum word, and as its second `t5 ^ t2 ^ t1` with `t5` and `t2` at the
/// start value and `t1` the start value added to itself once per word.
pub proof fn lemma_zero_window_checksum(b: Seq<u8>)
    requires
        b.len() >= CHECKSUM_END,
        forall|i: int| CHECKSUM_START <= i < CHECKSUM_END ==> b[i] == 0,
    ensures
        cart_checksum(b).0 == CHECKSUM_START_VALUE,
        cart_checksum(b).1 == CHECKSUM_START_VALUE ^ CHECKSUM_START_VALUE ^ ((
        CHECKSUM_START_VALUE as int * (CHECKSUM_WORDS + 1)) % 0x1_0000_0000) as u32,
{
    assert(window_words(b) =~= Seq::new(CHECKSUM_WORDS as nat, |i: int| 0u32)) by {
        assert forall|i: int| 0 <= i < CHECKSUM_WORDS implies #[trigger] window_words(b)[i]
            == 0u32 by {
            let off = CHECKSUM_START as int + 4 * i;
            assert(b[off] == 0 && b[off + 1] == 0 && b[off + 2] == 0 && b[off + 3] == 0);
        }
    }
    lemma_zero_words(CHECKSUM_WORDS as nat);
    let c = CHECKSUM_START_VALUE;
    assert(c ^ c ^ c == c) by (bit_vector);
}

/// Computes the checksum pair of `buffer`, which must be in native order.
pub fn calculate_cart_checksum(buffer: &[u8]) -> (r: Result<(u32, u32), ChecksumError>)
    ensures
        buffer@.len() < CHECKSUM_END ==> r == Err::<(u32, u32), ChecksumError>(
            ChecksumError::NotLongEnough,
        ),
        buffer@.len() >= CHECKSUM_END ==> r == Ok::<(u32, u32), ChecksumError>(
            cart_checksum(buffer@),
        ),
{
    if buffer.len() < CHECKSUM_END {
        return Err(ChecksumError::NotLongEnough);
    }
    let ghost words = window_words(buffer@);
    let mut t1: u32 = CHECKSUM_START_VALUE;
    let mut t2: u32 = CHECKSUM_START_VALUE;
    let mut t3: u32 = CHECKSUM_START_VALUE;
    let mut t4: u32 = CHECKSUM_START_VALUE;
    let mut t5: u32 = CHECKSUM_START_VALUE;
    let mut t6: u32 = CHECKSUM_START_VALUE;
    let mut i: usize = 0;
    while i < CHECKSUM_WORDS
        invariant
            buffer@.len() >= CHECKSUM_END,
            words == window_words(buffer@),
            i <= CHECKSUM_WORDS,
            t4 <= CHECKSUM_START_VALUE + i,
            (Accumulators { t1, t2, t3, t4, t5, t6 }) == accumulate_all(words.take(i as int)),
        decreases CHECKSUM_WORDS - i,
    {
        let c1 = read_be_u32(buffer, CHECKSUM_START + 4 * i);
        proof {
            assert(words.take(i + 1).drop_last() =~= words.take(i as int));
            assert(words[i as int] == c1);
        }
        proof {
            lemma_wrapping_add(t6, c1);
        }
        let k1 = t6.wrapping_add(c1);
        if k1 < t6 {
            t4 = t4 + 1;
        }
        t6 = k1;
        t3 = t3 ^ c1;
        let k2 = c1 & 0x1f;
        assert(k2 < 32) by (bit_vector)
            requires
                k2 == c1 & 0x1f,
        ;
        let k1 = rol_u32(c1, k2);
        proof {
            lemma_wrapping_add(t5, k1);
        }
        t5 = t5.wrapping_add(k1);
        if c1 < t2 {
            t2 = t2 ^ k1;
        } else {
            t2 = t2 ^ t6 ^ c1;
        }
        proof {
            lemma_wrapping_add(t1, c1 ^ t5);
        }
        t1 = t1.wrapping_add(c1 ^ t5);
        i = i + 1;
    }
    proof {
        assert(words.take(CHECKSUM_WORDS as int) =~= words);
    }
    Ok((t6 ^ t4 ^ t3, t5 ^ t2 ^ t1))
}

} // verus!
