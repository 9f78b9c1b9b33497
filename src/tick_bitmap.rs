//! A bitmap over compressed ticks (ticks divided by the spacing), in words of
//! 256 bits, for finding the next initialized tick quickly.
use vstd::prelude::*;
use crate::error::LiquidityHelperError;
use crate::tick_math::{MAX_TICK, MIN_TICK};

verus! {

/// One 256-bit word of the bitmap: bits 0..128 in `lo`, 128..256 in `hi`.
#[derive(Clone, Copy, Debug, PartialEq, Eq, Structural)]
pub struct BitmapWord {
    pub word_pos: i32,
    pub lo: u128,
    pub hi: u128,
}

pub open spec fn bit_of(w: u128, b: u128) -> bool {
    (w >> b) & 1 == 1
}

/// Bit `b` (in `0..256`) of a word.
pub open spec fn word_bit(w: BitmapWord, b: int) -> bool {
    if b < 128 {
        bit_of(w.lo, b as u128)
    } else {
        bit_of(w.hi, (b - 128) as u128)
    }
}

/// The word at position `pos`, if one is kept.
pub open spec fn word_at(s: Seq<BitmapWord>, pos: int) -> Option<BitmapWord>
    decreases s.len(),
{
    if s.len() == 0 {
        None
    } else if s.last().word_pos == pos {
        Some(s.last())
    } else {
        word_at(s.drop_last(), pos)
    }
}

/// `tick / spacing`, rounded towards minus infinity.
pub open spec fn compress(tick: int, spacing: int) -> int {
    tick / spacing
}

proof fn lemma_flip_bit(w: u128, b: u128, j: u128)
    requires
        b < 128,
        j < 128,
    ensures
        bit_of(w ^ (1u128 << b), j) == if j == b { !bit_of(w, j) } else { bit_of(w, j) },
{
    assert((((w ^ (1u128 << b)) >> j) & 1 == 1) == if j == b { !((w >> j) & 1 == 1) } else { (w >> j) & 1 == 1 })
        by (bit_vector)
        requires
            b < 128,
            j < 128,
    ;
}

proof fn lemma_zero_bit(j: u128)
    ensures
        !bit_of(0, j),
{
    assert(!((0u128 >> j) & 1 == 1)) by (bit_vector);
}

proof fn lemma_word_at_found(s: Seq<BitmapWord>, i: int)
    requires
        0 <= i < s.len(),
        forall|j: int| 0 <= j < s.len() && j != i ==> s[j].word_pos != s[i].word_pos,
    ensures
        word_at(s, s[i].word_pos as int) == Some(s[i]),
    decreases s.len(),
{
    if i != s.len() - 1 {
        lemma_word_at_found(s.drop_last(), i);
    }
}

proof fn lemma_word_at_absent(s: Seq<BitmapWord>, pos: int)
    requires
        forall|j: int| 0 <= j < s.len() ==> s[j].word_pos != pos,
    ensures
        word_at(s, pos) == None::<BitmapWord>,
    decreases s.len(),
{
    if s.len() > 0 {
        lemma_word_at_absent(s.drop_last(), pos);
    }
}

proof fn lemma_word_at_update(s: Seq<BitmapWord>, i: int, v: BitmapWord, pos: int)
    requires
        0 <= i < s.len(),
        s[i].word_pos == v.word_pos,
        pos != v.word_pos,
    ensures
        word_at(s.update(i, v), pos) == word_at(s, pos),
    decreases s.len(),
{
    let w = s.update(i, v);
    if i != s.len() - 1 {
        assert(w.drop_last() =~= s.drop_last().update(i, v));
        lemma_word_at_update(s.drop_last(), i, v, pos);
    } else {
        assert(w.drop_last() =~= s.drop_last());
    }
}

/// Word position and bit position of compressed tick `c`: `c = 256 * word + bit`.
pub fn position(c: i32) -> (r: (i32, u32))
    requires
        -2 * MAX_TICK <= c <= 2 * MAX_TICK,
    ensures
        r.0 == c / 256,
        r.1 == c % 256,
        c == 256 * r.0 + r.1,
{
    let n: u32 = (c + 1774592) as u32;
    proof {
        vstd::arithmetic::div_mod::lemma_hoist_over_denominator(c as int, 6932, 256);
        vstd::arithmetic::div_mod::lemma_mod_multiples_vanish(6932, c as int, 256);
        vstd::arithmetic::div_mod::lemma_fundamental_div_mod(c as int, 256);
    }
    (((n / 256) as i32) - 6932, n % 256)
}

/// Word position and bit position of the compressed tick of `tick`, for a
/// valid tick.
pub fn tick_bitmap(tick: i32) -> (r: Result<(i32, u32), LiquidityHelperError>)
    ensures
        (MIN_TICK <= tick <= MAX_TICK) <==> r.is_ok(),
        r matches Ok((w, b)) ==> w == tick / 256 && b == tick % 256,
        r is Err ==> r == Err::<(i32, u32), LiquidityHelperError>(LiquidityHelperError::TickOutOfRange),
{
    if tick < MIN_TICK || tick > MAX_TICK {
        Err(LiquidityHelperError::TickOutOfRange)
    } else {
        Ok(position(tick))
    }
}

/// `tick / spacing` rounded down, for a valid tick.
pub fn compress_tick(tick: i32, spacing: i32) -> (r: i32)
    requires
        MIN_TICK <= tick <= MAX_TICK,
        spacing > 0,
    ensures
        r == compress(tick as int, spacing as int),
        -MAX_TICK <= r <= MAX_TICK,
{
    let n: u64 = (tick as i64 + 887272 * (spacing as i64)) as u64;
    proof {
        vstd::arithmetic::div_mod::lemma_hoist_over_denominator(tick as int, 887272, spacing as nat);
        assert(tick as int / spacing as int >= -887272 && tick as int / spacing as int <= 887272) by {
            vstd::arithmetic::div_mod::lemma_div_is_ordered(-887272 * spacing as int, tick as int, spacing as int);
            vstd::arithmetic::div_mod::lemma_div_is_ordered(tick as int, 887272, spacing as int);
            vstd::arithmetic::div_mod::lemma_div_multiples_vanish(-887272, spacing as int);
            vstd::arithmetic::div_mod::lemma_div_is_ordered_by_denominator(887272, 1, spacing as int);
        }
    }
    ((n / (spacing as u64)) as i64 - 887272) as i32
}

/// The set bits of all words, keyed by compressed tick.
#[derive(Clone, Debug)]
pub struct TickBitmap {
    pub words: Vec<BitmapWord>,
}

impl TickBitmap {
    /// Each word position appears once.
    pub open spec fn wf(&self) -> bool {
        forall|i: int, j: int|
            0 <= i < j < self.words@.len() ==> self.words@[i].word_pos != self.words@[j].word_pos
    }

    /// Whether compressed tick `c` is marked initialized.
    pub open spec fn is_set(&self, c: int) -> bool {
        match word_at(self.words@, c / 256) {
            Some(w) => word_bit(w, c % 256),
            None => false,
        }
    }

    pub fn new() -> (r: TickBitmap)
        ensures
            r.wf(),
            forall|c: int| !r.is_set(c),
    {
        TickBitmap { words: Vec::new() }
    }

    proof fn lemma_unique(&self, i: int)
        requires
            self.wf(),
            0 <= i < self.words@.len(),
        ensures
            forall|j: int| 0 <= j < self.words@.len() && j != i ==> self.words@[j].word_pos != self.words@[i].word_pos,
    {
        assert forall|j: int| 0 <= j < self.words@.len() && j != i implies self.words@[j].word_pos
            != self.words@[i].word_pos by {
            if j < i {
            } else {
            }
        }
    }

    /// The word at `pos`, where one is kept.
    pub fn word_at_exec(&self, pos: i32) -> (r: Option<BitmapWord>)
        requires
            self.wf(),
        ensures
            r == word_at(self.words@, pos as int),
    {
        let mut i: usize = 0;
        while i < self.words.len()
            invariant
                self.wf(),
                i <= self.words@.len(),
                forall|j: int| 0 <= j < i ==> self.words@[j].word_pos != pos,
            decreases self.words@.len() - i,
        {
            if self.words[i].word_pos == pos {
                proof {
                    self.lemma_unique(i as int);
                    lemma_word_at_found(self.words@, i as int);
                }
                return Some(self.words[i]);
            }
            i = i + 1;
        }
        proof {
            lemma_word_at_absent(self.words@, pos as int);
        }
        None
    }

    /// The word at `pos`, all zero where none is kept.
    pub fn word(&self, pos: i32) -> (r: BitmapWord)
        requires
            self.wf(),
        ensures
            r.word_pos == pos,
            forall|b: int| 0 <= b < 256 ==> (word_bit(r, b) == match word_at(self.words@, pos as int) {
                Some(w) => word_bit(w, b),
                None => false,
            }),
    {
        let mut i: usize = 0;
        while i < self.words.len()
            invariant
                self.wf(),
                i <= self.words@.len(),
                forall|j: int| 0 <= j < i ==> self.words@[j].word_pos != pos,
            decreases self.words@.len() - i,
        {
            if self.words[i].word_pos == pos {
                proof {
                    self.lemma_unique(i as int);
                    lemma_word_at_found(self.words@, i as int);
                }
                return self.words[i];
            }
            i = i + 1;
        }
        proof {
            lemma_word_at_absent(self.words@, pos as int);
            assert forall|b: int| 0 <= b < 256 implies !word_bit(BitmapWord { word_pos: pos, lo: 0, hi: 0 }, b) by {
                if b < 128 {
                    lemma_zero_bit(b as u128);
                } else {
                    lemma_zero_bit((b - 128) as u128);
                }
            }
        }
        BitmapWord { word_pos: pos, lo: 0, hi: 0 }
    }

    /// Flips the mark of compressed tick `c`.
    pub fn flip(&mut self, c: i32)
        requires
            old(self).wf(),
            -2 * MAX_TICK <= c <= 2 * MAX_TICK,
        ensures
            final(self).wf(),
            final(self).is_set(c as int) == !old(self).is_set(c as int),
            forall|d: int| d != c ==> final(self).is_set(d) == old(self).is_set(d),
    {
        let (pos, bit) = position(c);
        let w = self.word(pos);
        let mut nw = w;
        if bit < 128 {
            nw.lo = w.lo ^ (1u128 << bit);
        } else {
            nw.hi = w.hi ^ (1u128 << (bit - 128));
        }
        proof {
            assert forall|b: int| 0 <= b < 256 implies word_bit(nw, b) == if b == bit { !word_bit(w, b) } else {
                word_bit(w, b)
            } by {
                if bit < 128 && b < 128 {
                    lemma_flip_bit(w.lo, bit as u128, b as u128);
                } else if bit >= 128 && b >= 128 {
                    lemma_flip_bit(w.hi, (bit - 128) as u128, (b - 128) as u128);
                }
            }
        }
        let ghost s = self.words@;
        let mut i: usize = 0;
        while i < self.words.len() && self.words[i].word_pos != pos
            invariant
                self.words@ == s,
                old(self).wf(),
                s == old(self).words@,
                i <= s.len(),
                forall|j: int| 0 <= j < i ==> s[j].word_pos != pos,
            decreases s.len() - i,
        {
            i = i + 1;
        }
        if i < self.words.len() {
            proof {
                old(self).lemma_unique(i as int);
                lemma_word_at_found(s, i as int);
            }
            self.words[i] = nw;
            proof {
                assert forall|a: int, b: int| 0 <= a < b < self.words@.len() implies self.words@[a].word_pos
                    != self.words@[b].word_pos by {
                    assert(s[a].word_pos != s[b].word_pos);
                }
                self.lemma_unique(i as int);
                lemma_word_at_found(self.words@, i as int);
                assert forall|d: int| d != c implies self.is_set(d) == old(self).is_set(d) by {
                    if d / 256 != pos {
                        lemma_word_at_update(s, i as int, nw, d / 256);
                    } else {
                        vstd::arithmetic::div_mod::lemma_fundamental_div_mod(d, 256);
                    }
                }
            }
        } else {
            proof {
                lemma_word_at_absent(s, pos as int);
            }
            self.words.push(nw);
            proof {
                assert(self.words@.drop_last() =~= s);
                assert forall|a: int, b: int| 0 <= a < b < self.words@.len() implies self.words@[a].word_pos
                    != self.words@[b].word_pos by {
                    if b < s.len() {
                        assert(s[a].word_pos != s[b].word_pos);
                    }
                }
                assert forall|d: int| d != c implies self.is_set(d) == old(self).is_set(d) by {
                    if d / 256 != pos {
                    } else {
                        vstd::arithmetic::div_mod::lemma_fundamental_div_mod(d, 256);
                    }
                }
            }
        }
    }
}

fn test_bit(w: &BitmapWord, b: u32) -> (r: bool)
    requires
        b < 256,
    ensures
        r == word_bit(*w, b as int),
{
    if b < 128 {
        (w.lo >> (b as u128)) & 1 == 1
    } else {
        (w.hi >> ((b - 128) as u128)) & 1 == 1
    }
}

proof fn lemma_split_256(pos: int, b: int)
    requires
        0 <= b < 256,
    ensures
        (256 * pos + b) / 256 == pos,
        (256 * pos + b) % 256 == b,
{
    vstd::arithmetic::div_mod::lemma_div_multiples_vanish_fancy(pos, b, 256);
    vstd::arithmetic::div_mod::lemma_mod_multiples_vanish(pos, b, 256);
    vstd::arithmetic::div_mod::lemma_small_mod(b as nat, 256);
}

pub proof fn lemma_compress_multiple(nc: int, spacing: int)
    requires
        spacing > 0,
    ensures
        compress(nc * spacing, spacing) == nc,
        (nc * spacing) % spacing == 0,
{
    vstd::arithmetic::div_mod::lemma_div_multiples_vanish(nc, spacing);
    vstd::arithmetic::div_mod::lemma_mod_multiples_basic(nc, spacing);
    assert(nc * spacing == spacing * nc) by (nonlinear_arith);
}

/// `r` is where the search of the bitmap from `tick` ends within one word:
/// the nearest marked compressed tick at or below the compressed `tick`
/// (when `lte`) or above it (otherwise), with `true`; else the word's last
/// compressed tick in the direction of the search, with `false`. The tick
/// given is that compressed tick times the spacing.
pub open spec fn next_props(bitmap: &TickBitmap, tick: int, spacing: int, lte: bool, r: (i32, bool)) -> bool {
    let c = compress(tick, spacing);
    let nc = compress(r.0 as int, spacing);
    &&& r.0 as int % spacing == 0
    &&& if lte {
        &&& (c / 256) * 256 <= nc <= c
        &&& forall|x: int| nc < x <= c ==> !bitmap.is_set(x)
        &&& r.1 ==> bitmap.is_set(nc)
        &&& !r.1 ==> nc == (c / 256) * 256 && !bitmap.is_set(nc)
    } else {
        &&& c + 1 <= nc <= ((c + 1) / 256) * 256 + 255
        &&& forall|x: int| c + 1 <= x < nc ==> !bitmap.is_set(x)
        &&& r.1 ==> bitmap.is_set(nc)
        &&& !r.1 ==> nc == ((c + 1) / 256) * 256 + 255 && !bitmap.is_set(nc)
    }
}

/// The result of searching the bitmap from `tick` within one word.
pub open spec fn next_in_word(bitmap: &TickBitmap, tick: int, spacing: int, lte: bool) -> (i32, bool) {
    choose|r: (i32, bool)| next_props(bitmap, tick, spacing, lte, r)
}

proof fn lemma_next_unique(bitmap: &TickBitmap, tick: int, spacing: int, lte: bool, r1: (i32, bool), r2: (i32, bool))
    requires
        spacing > 0,
        next_props(bitmap, tick, spacing, lte, r1),
        next_props(bitmap, tick, spacing, lte, r2),
    ensures
        r1 == r2,
{
    let n1 = compress(r1.0 as int, spacing);
    let n2 = compress(r2.0 as int, spacing);
    if lte {
        if n1 < n2 {
            assert(!bitmap.is_set(n2));
        } else if n2 < n1 {
            assert(!bitmap.is_set(n1));
        }
    } else {
        if n1 < n2 {
            assert(!bitmap.is_set(n1));
        } else if n2 < n1 {
            assert(!bitmap.is_set(n2));
        }
    }
    assert(n1 == n2);
    vstd::arithmetic::div_mod::lemma_fundamental_div_mod(r1.0 as int, spacing);
    vstd::arithmetic::div_mod::lemma_fundamental_div_mod(r2.0 as int, spacing);
}

/// The next initialized tick in the 256-tick word of the bitmap that holds
/// the compressed tick to search from: at or below `tick` when `lte`, else
/// above it. Where the word holds none, the word's last tick in the direction
/// of the search, with `false`.
pub fn next_initialized_tick_within_oneword(
    bitmap: &TickBitmap,
    tick: i32,
    tick_spacing: i32,
    lte: bool,
) -> (r: (i32, bool))
    requires
        bitmap.wf(),
        MIN_TICK <= tick <= MAX_TICK,
        0 < tick_spacing <= 16384,
    ensures
        next_props(bitmap, tick as int, tick_spacing as int, lte, r),
        r == next_in_word(bitmap, tick as int, tick_spacing as int, lte),
        lte ==> r.0 <= tick,
        !lte ==> r.0 > tick,
        -2 * MAX_TICK <= compress(r.0 as int, tick_spacing as int) <= 2 * MAX_TICK,
{
    let c = compress_tick(tick, tick_spacing);
    proof {
        vstd::arithmetic::div_mod::lemma_fundamental_div_mod(tick as int, tick_spacing as int);
    }
    if lte {
        let (pos, bp) = position(c);
        let w = bitmap.word(pos);
        let mut b: i32 = bp as i32;
        while b >= 0 && !test_bit(&w, b as u32)
            invariant
                -1 <= b <= bp,
                bp < 256,
                forall|x: int| b < x <= bp ==> !word_bit(w, x),
            decreases b + 1,
        {
            b = b - 1;
        }
        let found = b >= 0;
        let nb: i32 = if found { b } else { 0 };
        let nc: i32 = pos * 256 + nb;
        proof {
            lemma_split_256(pos as int, nb as int);
            lemma_compress_multiple(nc as int, tick_spacing as int);
            assert(nc as int / 256 == pos as int && nc as int % 256 == nb as int);
            assert(bitmap.is_set(nc as int) == word_bit(w, nb as int));
            assert forall|x: int| nc < x <= c implies !bitmap.is_set(x) by {
                let b2 = x - 256 * pos;
                lemma_split_256(pos as int, b2);
                assert(x / 256 == pos as int && x % 256 == b2);
                assert(!word_bit(w, b2));
            }
            assert((c / 256) * 256 == 256 * pos);
            assert(nc * tick_spacing <= c * tick_spacing) by (nonlinear_arith)
                requires
                    nc <= c,
                    tick_spacing > 0,
            ;
            assert(c * tick_spacing <= tick) by {
                assert(c * tick_spacing == tick_spacing * c) by (nonlinear_arith);
            }
            assert(nc * tick_spacing >= c * tick_spacing - 255 * tick_spacing) by (nonlinear_arith)
                requires
                    nc >= c - 255,
                    tick_spacing > 0,
            ;
            assert(c * tick_spacing > tick - tick_spacing) by {
                assert(c * tick_spacing == tick_spacing * c) by (nonlinear_arith);
            }
        }
        proof {
            let r = ((nc * tick_spacing) as i32, found);
            assert(next_props(bitmap, tick as int, tick_spacing as int, lte, r));
            lemma_next_unique(bitmap, tick as int, tick_spacing as int, lte, r, next_in_word(bitmap, tick as int, tick_spacing as int, lte));
        }
        (nc * tick_spacing, found)
    } else {
        let (pos, bp) = position(c + 1);
        let w = bitmap.word(pos);
        let mut b: u32 = bp;
        while b < 256 && !test_bit(&w, b)
            invariant
                bp <= b <= 256,
                forall|x: int| bp <= x < b ==> !word_bit(w, x),
            decreases 256 - b,
        {
            b = b + 1;
        }
        let found = b < 256;
        let nb: i32 = if found { b as i32 } else { 255 };
        let nc: i32 = pos * 256 + nb;
        proof {
            lemma_split_256(pos as int, nb as int);
            lemma_compress_multiple(nc as int, tick_spacing as int);
            assert(nc as int / 256 == pos as int && nc as int % 256 == nb as int);
            assert(bitmap.is_set(nc as int) == word_bit(w, nb as int));
            assert forall|x: int| c + 1 <= x < nc implies !bitmap.is_set(x) by {
                let b2 = x - 256 * pos;
                lemma_split_256(pos as int, b2);
                assert(x / 256 == pos as int && x % 256 == b2);
                assert(!word_bit(w, b2));
            }
            assert(((c + 1) / 256) * 256 == 256 * pos);
            assert(nc * tick_spacing >= (c + 1) * tick_spacing) by (nonlinear_arith)
                requires
                    nc >= c + 1,
                    tick_spacing > 0,
            ;
            assert((c + 1) * tick_spacing > tick) by {
                assert((c + 1) * tick_spacing == tick_spacing * c + tick_spacing) by (nonlinear_arith);
            }
            assert(nc * tick_spacing <= c * tick_spacing + 511 * tick_spacing) by (nonlinear_arith)
                requires
                    nc <= c + 511,
                    tick_spacing > 0,
            ;
            assert(c * tick_spacing <= tick) by {
                assert(c * tick_spacing == tick_spacing * c) by (nonlinear_arith);
            }
        }
        proof {
            let r = ((nc * tick_spacing) as i32, found);
            assert(next_props(bitmap, tick as int, tick_spacing as int, lte, r));
            lemma_next_unique(bitmap, tick as int, tick_spacing as int, lte, r, next_in_word(bitmap, tick as int, tick_spacing as int, lte));
        }
        (nc * tick_spacing, found)
    }
}

} // verus!
