use vstd::prelude::*;
use vstd::arithmetic::div_mod::lemma_fundamental_div_mod_converse;
use vstd::arithmetic::power2::{lemma2_to64, pow2};
use crate::canvas::{on_grid, pixel_of, Image, HEIGHT, PIXELS, WIDTH};

verus! {

/// Canvas columns per column group; only the first eight are encoded.
pub const GROUP_WIDTH: usize = 9;

/// Bits packed from one column group.
pub const GROUP_BITS: usize = 8;

/// Column groups per encoded row: one packed byte each.
pub const GROUPS: usize = WIDTH / GROUP_WIDTH;

/// Encoded rows: one for each odd canvas row.
pub const ENCODED_ROWS: usize = HEIGHT / 2;

/// Size of the display's addressable frame memory, in bytes.
pub const FRAME_LEN: usize = 0x3f0;

/// The first `n` pixels of row `y` from column `x` on, read as a binary
/// number with the leftmost pixel as the most significant bit.
pub open spec fn pack_bits(v: Seq<bool>, x: int, y: int, n: nat) -> int
    decreases n,
{
    if n == 0 {
        0
    } else {
        2 * pack_bits(v, x, y, (n - 1) as nat) + if pixel_of(v, x + n - 1, y) {
            1int
        } else {
            0int
        }
    }
}

/// The byte for column group `i` of encoded row `j`: canvas pixels
/// `9i .. 9i + 8` of row `2j + 1`, most significant bit first.
pub open spec fn packed_byte(v: Seq<bool>, i: int, j: int) -> u8 {
    pack_bits(v, GROUP_WIDTH * i, 2 * j + 1, GROUP_BITS as nat) as u8
}

/// The packed frame of a canvas: byte `GROUPS * j + i` holds column group `i`
/// of encoded row `j`.
pub open spec fn encoded(v: Seq<bool>) -> Seq<u8> {
    Seq::new(FRAME_LEN as nat, |k: int| packed_byte(v, k % GROUPS as int, k / GROUPS as int))
}

/// The display's native frame: eight pixels per byte, one byte per column
/// group, one encoded row per odd canvas row.
pub struct Frame {
    bytes: Vec<u8>,
}

impl View for Frame {
    type V = Seq<u8>;

    closed spec fn view(&self) -> Seq<u8> {
        self.bytes@
    }
}

impl Frame {
    /// A frame always covers the whole frame memory.
    pub open spec fn wf(&self) -> bool {
        self@.len() == FRAME_LEN
    }

    /// A frame with every byte zero.
    pub fn new() -> (r: Frame)
        ensures
            r.wf(),
            forall|k: int| 0 <= k < FRAME_LEN ==> r@[k] == 0,
    {
        let mut bytes: Vec<u8> = Vec::new();
        let mut k: usize = 0;
        while k < FRAME_LEN
            invariant
                k <= FRAME_LEN,
                bytes@.len() == k,
                forall|i: int| 0 <= i < k ==> bytes@[i] == 0,
            decreases FRAME_LEN - k,
        {
            bytes.push(0);
            k = k + 1;
        }
        Frame { bytes }
    }

    /// Packs a canvas into the display's frame layout.
    pub fn encode(img: &Image) -> (r: Frame)
        requires
            img.wf(),
        ensures
            r.wf(),
            r@ == encoded(img@),
    {
        assert(GROUPS == 16 && ENCODED_ROWS == 63);
        let mut bytes: Vec<u8> = Vec::new();
        let mut j: usize = 0;
        while j < ENCODED_ROWS
            invariant
                j <= ENCODED_ROWS,
                img.wf(),
                bytes@.len() == GROUPS * j,
                GROUPS * j <= FRAME_LEN,
                forall|k: int| 0 <= k < bytes@.len() ==> bytes@[k] == #[trigger] encoded(img@)[k],
            decreases ENCODED_ROWS - j,
        {
            assert(GROUPS == 16);
            let mut i: usize = 0;
            while i < GROUPS
                invariant
                    i <= GROUPS,
                    j < ENCODED_ROWS,
                    img.wf(),
                    bytes@.len() == GROUPS * j + i,
                    GROUPS * j + i <= FRAME_LEN,
                    forall|k: int| 0 <= k < bytes@.len() ==> bytes@[k] == #[trigger] encoded(img@)[k],
                decreases GROUPS - i,
            {
                let x: usize = GROUP_WIDTH * i;
                let y: usize = 2 * j + 1;
                let v: u8 = img.pack_group(x, y);
                proof {
                    lemma_fundamental_div_mod_converse((16 * j + i) as int, 16, j as int, i as int);
                }
                bytes.push(v);
                i = i + 1;
            }
            j = j + 1;
        }
        let r = Frame { bytes };
        assert(r@ =~= encoded(img@));
        r
    }

    /// The frame's bytes, in address order.
    pub fn as_bytes(&self) -> (r: &Vec<u8>)
        ensures
            r@ == self@,
    {
        &self.bytes
    }

    /// Gives up the frame's bytes, in address order.
    pub fn into_bytes(self) -> (r: Vec<u8>)
        ensures
            r@ == self@,
    {
        self.bytes
    }
}

impl Image {
    /// Eight pixels of row `y` from column `x` on, most significant bit first.
    fn pack_group(&self, x: usize, y: usize) -> (r: u8)
        requires
            self.wf(),
            x + GROUP_BITS <= WIDTH,
            y < HEIGHT,
        ensures
            r as int == pack_bits(self@, x as int, y as int, GROUP_BITS as nat),
    {
        proof {
            lemma2_to64();
        }
        let mut v: u8 = 0;
        let mut b: usize = 0;
        while b < GROUP_BITS
            invariant
                b <= GROUP_BITS,
                self.wf(),
                x + GROUP_BITS <= WIDTH,
                y < HEIGHT,
                v as int == pack_bits(self@, x as int, y as int, b as nat),
                v < pow2(b as nat),
            decreases GROUP_BITS - b,
        {
            let bit: u8 = if self.pixel(x + b, y) {
                1
            } else {
                0
            };
            assert(v * 2 + bit < pow2(b as nat + 1) && pow2(b as nat + 1) <= 0x100) by {
                lemma2_to64();
                assert(b == 0 || b == 1 || b == 2 || b == 3 || b == 4 || b == 5 || b == 6 || b == 7);
            }
            v = v * 2 + bit;
            b = b + 1;
        }
        v
    }
}

} // verus!
verus! {

/// Packing is a function of the pixels read: two pixel sequences that agree
/// on row `y` from column `x` over `n` columns pack to the same number.
proof fn lemma_pack_bits_agree(v: Seq<bool>, w: Seq<bool>, x: int, y: int, n: nat)
    requires
        forall|b: int| 0 <= b < n ==> #[trigger] pixel_of(v, x + b, y) == pixel_of(w, x + b, y),
    ensures
        pack_bits(v, x, y, n) == pack_bits(w, x, y, n),
    decreases n,
{
    if n > 0 {
        lemma_pack_bits_agree(v, w, x, y, (n - 1) as nat);
        assert(pixel_of(v, x + (n - 1), y) == pixel_of(w, x + (n - 1), y));
    }
}

/// Encoding is deterministic: canvases that agree on every pixel encode to
/// byte-identical frames.
pub proof fn lemma_encode_deterministic(v: Seq<bool>, w: Seq<bool>)
    requires
        v.len() == PIXELS,
        w.len() == PIXELS,
        forall|x: int, y: int| #![trigger pixel_of(v, x, y)] on_grid(x, y) ==> pixel_of(v, x, y) == pixel_of(w, x, y),
    ensures
        encoded(v) == encoded(w),
{
    assert forall|k: int| 0 <= k < FRAME_LEN implies #[trigger] encoded(v)[k] == encoded(w)[k] by {
        let i: int = k % GROUPS as int;
        let j: int = k / GROUPS as int;
        assert(0 <= i < 16 && 0 <= j < 63);
        assert forall|b: int| 0 <= b < GROUP_BITS implies #[trigger] pixel_of(v, GROUP_WIDTH * i + b, 2 * j + 1) == pixel_of(
            w,
            GROUP_WIDTH * i + b,
            2 * j + 1,
        ) by {
            assert(on_grid(GROUP_WIDTH * i + b, 2 * j + 1));
        }
        lemma_pack_bits_agree(v, w, GROUP_WIDTH * i, 2 * j + 1, GROUP_BITS as nat);
    }
    assert(encoded(v) =~= encoded(w));
}

/// The leading `n` bits of `p`, most significant first, are what packing
/// reads from pixels that hold those bits.
proof fn lemma_pack_bits_pattern(v: Seq<bool>, x: int, y: int, p: u8, n: nat)
    requires
        n <= 8,
        forall|b: int| #![trigger pixel_of(v, x + b, y)] 0 <= b < 8 ==> pixel_of(v, x + b, y) == ((p >> (7 - b) as u8) & 1 == 1),
    ensures
        pack_bits(v, x, y, n) == (p >> (8 - n) as u8) as int,
    decreases n,
{
    if n == 0 {
        assert((p >> 8u8) == 0) by (bit_vector);
    } else {
        lemma_pack_bits_pattern(v, x, y, p, (n - 1) as nat);
        let s: u8 = (8 - n) as u8;
        let t: u8 = (s + 1) as u8;
        assert(t == (8 - (n - 1)) as u8);
        assert(pixel_of(v, x + (n - 1), y) == ((p >> s) & 1 == 1));
        let hi: u8 = p >> t;
        let bit: u8 = (p >> s) & 1;
        let all: u8 = p >> s;
        assert(hi < 128 && bit <= 1 && (hi as u16) * 2 + (bit as u16) == (all as u16)) by (bit_vector)
            requires
                s < 8,
                t == s + 1,
                hi == p >> t,
                bit == (p >> s) & 1,
                all == p >> s,
        ;
        assert(pack_bits(v, x, y, n) == 2 * (hi as int) + if bit == 1 { 1int } else { 0int });
    }
}

/// Round trip of one column group: a canvas whose row 1 holds the bits of `p`,
/// most significant first, in columns 0 to 7 encodes to a frame whose first
/// byte is `p`.
pub proof fn lemma_encode_first_group(v: Seq<bool>, p: u8)
    requires
        v.len() == PIXELS,
        forall|b: int| 0 <= b < 8 ==> #[trigger] pixel_of(v, b, 1) == ((p >> (7 - b) as u8) & 1 == 1),
    ensures
        encoded(v)[0] == p,
{
    assert forall|b: int| #![trigger pixel_of(v, 0 + b, 1)] 0 <= b < 8 implies pixel_of(v, 0 + b, 1) == ((p >> (7 - b) as u8) & 1 == 1) by {
        assert(pixel_of(v, b, 1) == ((p >> (7 - b) as u8) & 1 == 1));
    }
    lemma_pack_bits_pattern(v, 0, 1, p, 8);
    assert((p >> 0u8) == p) by (bit_vector);
}

} // verus!
