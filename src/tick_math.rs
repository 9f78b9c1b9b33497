//! Conversion between ticks and Q64.96 square-root prices.
//!
//! The price of a tick is built from a fixed base value at `MIN_TICK`: each set
//! bit `i` of `tick - MIN_TICK` multiplies it by `1.0001^(2^i / 2)`, held as a
//! 128-bit fixed-point factor and rounded down, while 80 guard bits beyond the
//! 96 fractional bits of the result are carried. Every factor is at least one,
//! so one step of the tick raises the carried value by at least one unit of
//! the result, which makes the price strictly increasing in the tick.
use vstd::prelude::*;
use crate::error::LiquidityHelperError;
use crate::wide::{b128, mul_div_mod, Uint256};

verus! {

pub const MIN_TICK: i32 = -887272;

pub const MAX_TICK: i32 = 887272;

/// The price of `MIN_TICK`.
pub const MIN_SQRT_RATIO: u128 = 4295128739;

/// High half of the price of `MAX_TICK`.
pub const MAX_SQRT_RATIO_HI: u128 = 4294805859;

/// Low half of the price of `MAX_TICK`.
pub const MAX_SQRT_RATIO_LO: u128 = 318775800626314356294205765087544249638;

/// The price of `MAX_TICK`, the highest price:
/// 1461446703485210103287273052203988822378723970342.
pub open spec fn max_sqrt_ratio() -> nat {
    MAX_SQRT_RATIO_HI as nat * b128() + MAX_SQRT_RATIO_LO as nat
}

pub fn max_sqrt_ratio_value() -> (r: Uint256)
    ensures
        r@ == max_sqrt_ratio(),
{
    Uint256 { hi: MAX_SQRT_RATIO_HI, lo: MAX_SQRT_RATIO_LO }
}

pub open spec fn is_valid_tick(tick: int) -> bool {
    MIN_TICK <= tick <= MAX_TICK
}

/// 2^80: the guard bits carried beyond the result's fraction.
#[verifier::inline]
pub open spec fn guard() -> nat {
    1208925819614629174706176nat
}

/// The carried value at `MIN_TICK`.
pub open spec fn base_ratio() -> nat {
    5192492030095814304395620157647443nat
}

/// The factor that one set bit `i` of the offset from the lowest tick multiplies by:
/// the square root of 1.0001 raised to 2^i, as a 128-bit fixed-point number rounded down.
/// The factor of the top bit is fitted so that the price of `MAX_TICK` comes out
/// as `max_sqrt_ratio()` exactly (it exceeds the rounded power by about three
/// parts in 10^20).
pub open spec fn tick_factor(i: nat) -> nat {
    if i == 0 {
        340299380613952818054172298683778356828nat
    } else if i == 1 {
        340316395157630557309720944892511388277nat
    } else if i == 2 {
        340350426797146320365451916987000639415nat
    } else if i == 3 {
        340418500286010017600988211024917209413nat
    } else if i == 4 {
        340554688112596146811623731040025550735nat
    } else if i == 5 {
        340827227237472341863836470820749023631nat
    } else if i == 6 {
        341372959984650275276033597306520743141nat
    } else if i == 7 {
        342467048360920826462928722886081615600nat
    } else if i == 8 {
        344665755896458450296233727269387403731nat
    } else if i == 9 {
        349105610033792638280984123280190328436nat
    } else if i == 10 {
        358157632615101069751276996057946695658nat
    } else if i == 11 {
        376971898253716117623529192837680025078nat
    } else if i == 12 {
        417617325748846587604282738883252442194nat
    } else if i == 13 {
        512527970061227098179808991519084180753nat
    } else if i == 14 {
        771961599044932501159214767853730668404nat
    } else if i == 15 {
        1751265326476546048830215005295408735410nat
    } else if i == 16 {
        9012897939644274835729218063218412887975nat
    } else if i == 17 {
        238720360403857226300850011143463043697824nat
    } else if i == 18 {
        167470947692649603307852627475141582849110685nat
    } else if i == 19 {
        82421309616641213947171380309905481222424097915895nat
    } else {
        19963632968676831119935970805034814484366174269611786629259396nat
    }
}

fn tick_factor_exec(i: usize) -> (r: Uint256)
    requires
        i < 21,
    ensures
        r@ == tick_factor(i as nat),
{
    if i == 0 {
        Uint256 { hi: 1, lo: 17013693014354590797691252010145372 }
    } else if i == 1 {
        Uint256 { hi: 1, lo: 34028236692093846346337460743176821 }
    } else if i == 2 {
        Uint256 { hi: 1, lo: 68059876207856902077309555232427959 }
    } else if i == 3 {
        Uint256 { hi: 1, lo: 136133365071554137613603593148997957 }
    } else if i == 4 {
        Uint256 { hi: 1, lo: 272321191657683348249123608257339279 }
    } else if i == 5 {
        Uint256 { hi: 1, lo: 544860316533878400461863388980812175 }
    } else if i == 6 {
        Uint256 { hi: 1, lo: 1090593063711811812658989874752531685 }
    } else if i == 7 {
        Uint256 { hi: 1, lo: 2184681439982362999554115454313404144 }
    } else if i == 8 {
        Uint256 { hi: 1, lo: 4383388975519986832859119837619192275 }
    } else if i == 9 {
        Uint256 { hi: 1, lo: 8823243112854174817609515848422116980 }
    } else if i == 10 {
        Uint256 { hi: 1, lo: 17875265694162606287902388626178484202 }
    } else if i == 11 {
        Uint256 { hi: 1, lo: 36689531332777654160154585405911813622 }
    } else if i == 12 {
        Uint256 { hi: 1, lo: 77334958827908124140908131451484230738 }
    } else if i == 13 {
        Uint256 { hi: 1, lo: 172245603140288634716434384087315969297 }
    } else if i == 14 {
        Uint256 { hi: 2, lo: 91396865203055574232465552990194245492 }
    } else if i == 15 {
        Uint256 { hi: 5, lo: 49853491871853731513341968136567678130 }
    } else if i == 16 {
        Uint256 { hi: 26, lo: 165556399699874785681478269992439390119 }
    } else if i == 17 {
        Uint256 { hi: 701, lo: 182421192279363413024411333793527467168 }
    } else if i == 18 {
        Uint256 { hi: 492152, lo: 300247775896637425887678381994044617373 }
    } else if i == 19 {
        Uint256 { hi: 242214459604, lo: 116058626852001524604101582423455892471 }
    } else {
        Uint256 { hi: 58667844441422969903011, lo: 244378722191608240596953316009370165380 }
    }
}


/// The carried value after the bits `i..21` of `u` (shifted down to bit 0)
/// were applied to `x`.
pub open spec fn accumulate(u: nat, i: nat, x: nat) -> nat
    decreases 21 - i,
{
    if i >= 21 {
        x
    } else {
        accumulate(u / 2, i + 1, if u % 2 == 1 { x * tick_factor(i) / b128() } else { x })
    }
}

/// The price of `tick` with its guard bits.
pub open spec fn ratio_x176(tick: int) -> nat {
    accumulate((tick - MIN_TICK) as nat, 0, base_ratio())
}

/// The Q64.96 square-root price of `tick`: `ratio_x176` rounded up.
pub open spec fn sqrt_ratio(tick: int) -> nat {
    ((ratio_x176(tick) + guard() - 1) / guard() as int) as nat
}

/// `tick` is the tick of price `p`: the greatest valid tick whose price is at
/// most `p`.
pub open spec fn is_tick_of(tick: int, p: nat) -> bool {
    &&& is_valid_tick(tick)
    &&& sqrt_ratio(tick) <= p
    &&& (tick == MAX_TICK || p < sqrt_ratio(tick + 1))
}

/// The tick of price `p`, where `p` lies in `[MIN_SQRT_RATIO, max_sqrt_ratio())`.
pub open spec fn tick_of(p: nat) -> int {
    choose|t: int| is_tick_of(t, p)
}

/// A price has at most one tick.
pub proof fn lemma_tick_of_unique(t1: int, t2: int, p: nat)
    requires
        is_tick_of(t1, p),
        is_tick_of(t2, p),
    ensures
        t1 == t2,
{
    if t1 < t2 {
        if t1 + 1 < t2 {
            lemma_sqrt_ratio_strictly_increasing(t1 + 1, t2);
        }
    } else if t2 < t1 {
        if t2 + 1 < t1 {
            lemma_sqrt_ratio_strictly_increasing(t2 + 1, t1);
        }
    }
}

/// The carried value after the low `k` bits, all set, were applied to the base.
spec fn chain(k: nat) -> nat
    decreases k,
{
    if k == 0 {
        base_ratio()
    } else {
        chain((k - 1) as nat) * tick_factor((k - 1) as nat) / b128()
    }
}

/// 2^(21 - k).
spec fn span(k: nat) -> nat
    decreases 21 - k,
{
    if k >= 21 {
        1
    } else {
        2 * span(k + 1)
    }
}

proof fn lemma_chain_values()
    ensures
        chain(0) == 5192492030095814304395620157647443nat,
        chain(1) == 5192751648207028567961200769554242nat,
        chain(2) == 5193270923371849270817996889631197nat,
        chain(3) == 5194309629489232874390653197189092nat,
        chain(4) == 5196387665020384094843301802328009nat,
        chain(5) == 5200546230431980694691642247317462nat,
        chain(6) == 5208873347969400997837341583974093nat,
        chain(7) == 5225567604549462417889683609114756nat,
        chain(8) == 5259116802711954210843704078282843nat,
        chain(9) == 5326862759761017529298987603661034nat,
        chain(10) == 5464983948888342643234205117783290nat,
        chain(11) == 5752063297091565926377102379121027nat,
        chain(12) == 6372255605251320514285321943452441nat,
        chain(13) == 7820459134961441616103825266577718nat,
        chain(14) == 11779053030743252560599582526177251nat,
        chain(15) == 26721856601403888674366660702515928nat,
        chain(16) == 137524201881403696270591368913433776nat,
        chain(17) == 3642538421851612909596961909568974965nat,
        chain(18) == 2555372153771770410316336042512085364750nat,
        chain(19) == 1257633770952921517170748669788071863890688467nat,
        chain(20) == 304617084211531533086807819195708394938111025238798591262nat,
        chain(21) == 17871227710721972980067749562975376761800242930880856542118708905550113246765926nat,
{
    reveal_with_fuel(chain, 2);
    assert(chain(1) == 5192751648207028567961200769554242nat) by {
        assert(tick_factor(0) == 340299380613952818054172298683778356828nat);
        assert(chain(0) == 5192492030095814304395620157647443nat);
        assert(5192492030095814304395620157647443nat * 340299380613952818054172298683778356828nat / b128() == 5192751648207028567961200769554242nat);
    }
    assert(chain(2) == 5193270923371849270817996889631197nat) by {
        assert(tick_factor(1) == 340316395157630557309720944892511388277nat);
        assert(chain(1) == 5192751648207028567961200769554242nat);
        assert(5192751648207028567961200769554242nat * 340316395157630557309720944892511388277nat / b128() == 5193270923371849270817996889631197nat);
    }
    assert(chain(3) == 5194309629489232874390653197189092nat) by {
        assert(tick_factor(2) == 340350426797146320365451916987000639415nat);
        assert(chain(2) == 5193270923371849270817996889631197nat);
        assert(5193270923371849270817996889631197nat * 340350426797146320365451916987000639415nat / b128() == 5194309629489232874390653197189092nat);
    }
    assert(chain(4) == 5196387665020384094843301802328009nat) by {
        assert(tick_factor(3) == 340418500286010017600988211024917209413nat);
        assert(chain(3) == 5194309629489232874390653197189092nat);
        assert(5194309629489232874390653197189092nat * 340418500286010017600988211024917209413nat / b128() == 5196387665020384094843301802328009nat);
    }
    assert(chain(5) == 5200546230431980694691642247317462nat) by {
        assert(tick_factor(4) == 340554688112596146811623731040025550735nat);
        assert(chain(4) == 5196387665020384094843301802328009nat);
        assert(5196387665020384094843301802328009nat * 340554688112596146811623731040025550735nat / b128() == 5200546230431980694691642247317462nat);
    }
    assert(chain(6) == 5208873347969400997837341583974093nat) by {
        assert(tick_factor(5) == 340827227237472341863836470820749023631nat);
        assert(chain(5) == 5200546230431980694691642247317462nat);
        assert(5200546230431980694691642247317462nat * 340827227237472341863836470820749023631nat / b128() == 5208873347969400997837341583974093nat);
    }
    assert(chain(7) == 5225567604549462417889683609114756nat) by {
        assert(tick_factor(6) == 341372959984650275276033597306520743141nat);
        assert(chain(6) == 5208873347969400997837341583974093nat);
        assert(5208873347969400997837341583974093nat * 341372959984650275276033597306520743141nat / b128() == 5225567604549462417889683609114756nat);
    }
    assert(chain(8) == 5259116802711954210843704078282843nat) by {
        assert(tick_factor(7) == 342467048360920826462928722886081615600nat);
        assert(chain(7) == 5225567604549462417889683609114756nat);
        assert(5225567604549462417889683609114756nat * 342467048360920826462928722886081615600nat / b128() == 5259116802711954210843704078282843nat);
    }
    assert(chain(9) == 5326862759761017529298987603661034nat) by {
        assert(tick_factor(8) == 344665755896458450296233727269387403731nat);
        assert(chain(8) == 5259116802711954210843704078282843nat);
        assert(5259116802711954210843704078282843nat * 344665755896458450296233727269387403731nat / b128() == 5326862759761017529298987603661034nat);
    }
    assert(chain(10) == 5464983948888342643234205117783290nat) by {
        assert(tick_factor(9) == 349105610033792638280984123280190328436nat);
        assert(chain(9) == 5326862759761017529298987603661034nat);
        assert(5326862759761017529298987603661034nat * 349105610033792638280984123280190328436nat / b128() == 5464983948888342643234205117783290nat);
    }
    assert(chain(11) == 5752063297091565926377102379121027nat) by {
        assert(tick_factor(10) == 358157632615101069751276996057946695658nat);
        assert(chain(10) == 5464983948888342643234205117783290nat);
        assert(5464983948888342643234205117783290nat * 358157632615101069751276996057946695658nat / b128() == 5752063297091565926377102379121027nat);
    }
    assert(chain(12) == 6372255605251320514285321943452441nat) by {
        assert(tick_factor(11) == 376971898253716117623529192837680025078nat);
        assert(chain(11) == 5752063297091565926377102379121027nat);
        assert(5752063297091565926377102379121027nat * 376971898253716117623529192837680025078nat / b128() == 6372255605251320514285321943452441nat);
    }
    assert(chain(13) == 7820459134961441616103825266577718nat) by {
        assert(tick_factor(12) == 417617325748846587604282738883252442194nat);
        assert(chain(12) == 6372255605251320514285321943452441nat);
        assert(6372255605251320514285321943452441nat * 417617325748846587604282738883252442194nat / b128() == 7820459134961441616103825266577718nat);
    }
    assert(chain(14) == 11779053030743252560599582526177251nat) by {
        assert(tick_factor(13) == 512527970061227098179808991519084180753nat);
        assert(chain(13) == 7820459134961441616103825266577718nat);
        assert(7820459134961441616103825266577718nat * 512527970061227098179808991519084180753nat / b128() == 11779053030743252560599582526177251nat);
    }
    assert(chain(15) == 26721856601403888674366660702515928nat) by {
        assert(tick_factor(14) == 771961599044932501159214767853730668404nat);
        assert(chain(14) == 11779053030743252560599582526177251nat);
        assert(11779053030743252560599582526177251nat * 771961599044932501159214767853730668404nat / b128() == 26721856601403888674366660702515928nat);
    }
    assert(chain(16) == 137524201881403696270591368913433776nat) by {
        assert(tick_factor(15) == 1751265326476546048830215005295408735410nat);
        assert(chain(15) == 26721856601403888674366660702515928nat);
        assert(26721856601403888674366660702515928nat * 1751265326476546048830215005295408735410nat / b128() == 137524201881403696270591368913433776nat);
    }
    assert(chain(17) == 3642538421851612909596961909568974965nat) by {
        assert(tick_factor(16) == 9012897939644274835729218063218412887975nat);
        assert(chain(16) == 137524201881403696270591368913433776nat);
        assert(137524201881403696270591368913433776nat * 9012897939644274835729218063218412887975nat / b128() == 3642538421851612909596961909568974965nat);
    }
    assert(chain(18) == 2555372153771770410316336042512085364750nat) by {
        assert(tick_factor(17) == 238720360403857226300850011143463043697824nat);
        assert(chain(17) == 3642538421851612909596961909568974965nat);
        assert(3642538421851612909596961909568974965nat * 238720360403857226300850011143463043697824nat / b128() == 2555372153771770410316336042512085364750nat);
    }
    assert(chain(19) == 1257633770952921517170748669788071863890688467nat) by {
        assert(tick_factor(18) == 167470947692649603307852627475141582849110685nat);
        assert(chain(18) == 2555372153771770410316336042512085364750nat);
        assert(2555372153771770410316336042512085364750nat * 167470947692649603307852627475141582849110685nat / b128() == 1257633770952921517170748669788071863890688467nat);
    }
    assert(chain(20) == 304617084211531533086807819195708394938111025238798591262nat) by {
        assert(tick_factor(19) == 82421309616641213947171380309905481222424097915895nat);
        assert(chain(19) == 1257633770952921517170748669788071863890688467nat);
        assert(1257633770952921517170748669788071863890688467nat * 82421309616641213947171380309905481222424097915895nat / b128() == 304617084211531533086807819195708394938111025238798591262nat);
    }
    assert(chain(21) == 17871227710721972980067749562975376761800242930880856542118708905550113246765926nat) by {
        assert(tick_factor(20) == 19963632968676831119935970805034814484366174269611786629259396nat);
        assert(chain(20) == 304617084211531533086807819195708394938111025238798591262nat);
        assert(304617084211531533086807819195708394938111025238798591262nat * 19963632968676831119935970805034814484366174269611786629259396nat / b128() == 17871227710721972980067749562975376761800242930880856542118708905550113246765926nat);
    }
}

proof fn lemma_span_base()
    ensures
        span(0) == 2097152,
{
    reveal_with_fuel(span, 22);
}

proof fn lemma_factor_ge(i: nat)
    ensures
        tick_factor(i) >= b128(),
{
}

/// Multiplying by a factor of at least one keeps order and keeps a gap.
proof fn lemma_scale_gap(x: nat, y: nat, f: nat, g: nat)
    requires
        f >= b128(),
        x + g <= y,
    ensures
        x * f / b128() + g <= y * f / b128(),
        x <= x * f / b128(),
{
    assert(x * f + g * b128() <= y * f) by (nonlinear_arith)
        requires
            f >= b128(),
            x + g <= y,
    ;
    vstd::arithmetic::div_mod::lemma_hoist_over_denominator((x * f) as int, g as int, b128());
    vstd::arithmetic::div_mod::lemma_div_is_ordered(
        (x * f + g * b128()) as int,
        (y * f) as int,
        b128() as int,
    );
    assert(x * b128() <= x * f) by (nonlinear_arith)
        requires
            f >= b128(),
    ;
    vstd::arithmetic::div_mod::lemma_div_is_ordered((x * b128()) as int, (x * f) as int, b128() as int);
    vstd::arithmetic::div_mod::lemma_div_multiples_vanish(x as int, b128() as int);
}

proof fn lemma_accumulate_gap(u: nat, i: nat, x: nat, y: nat)
    requires
        x + guard() <= y,
    ensures
        accumulate(u, i, x) + guard() <= accumulate(u, i, y),
    decreases 21 - i,
{
    if i < 21 {
        lemma_factor_ge(i);
        lemma_scale_gap(x, y, tick_factor(i), guard());
        let x2 = if u % 2 == 1 { x * tick_factor(i) / b128() } else { x };
        let y2 = if u % 2 == 1 { y * tick_factor(i) / b128() } else { y };
        lemma_accumulate_gap(u / 2, i + 1, x2, y2);
    }
}

proof fn lemma_accumulate_ge(u: nat, i: nat, x: nat)
    ensures
        x <= accumulate(u, i, x),
    decreases 21 - i,
{
    if i < 21 {
        lemma_factor_ge(i);
        lemma_scale_gap(x, x, tick_factor(i), 0);
        let x2 = if u % 2 == 1 { x * tick_factor(i) / b128() } else { x };
        lemma_accumulate_ge(u / 2, i + 1, x2);
    }
}

proof fn lemma_accumulate_zero(i: nat, x: nat)
    ensures
        accumulate(0, i, x) == x,
    decreases 21 - i,
{
    if i < 21 {
        lemma_accumulate_zero(i + 1, x);
    }
}

/// Adding one to the offset `v` raises the carried value by a full unit,
/// where the low bits already applied were all set.
proof fn lemma_accumulate_succ(v: nat, k: nat)
    requires
        k <= 21,
        v + 1 < span(k),
    ensures
        accumulate(v, k, chain(k)) + guard() <= accumulate(v + 1, k, base_ratio()),
    decreases 21 - k,
{
    lemma_chain_values();
    if k < 21 {
        let w = v / 2;
        if v % 2 == 0 {
            assert((v + 1) / 2 == w && (v + 1) % 2 == 1);
            lemma_accumulate_gap(w, k + 1, chain(k), base_ratio() * tick_factor(k) / b128());
        } else {
            assert((v + 1) / 2 == w + 1 && (v + 1) % 2 == 0);
            assert(chain(k + 1) == chain(k) * tick_factor(k) / b128());
            lemma_accumulate_succ(w, k + 1);
        }
    }
}

proof fn lemma_ratio_step(tick: int)
    requires
        MIN_TICK <= tick < MAX_TICK,
    ensures
        ratio_x176(tick) + guard() <= ratio_x176(tick + 1),
{
    lemma_span_base();
    lemma_chain_values();
    let v = (tick - MIN_TICK) as nat;
    assert((tick + 1 - MIN_TICK) as nat == v + 1);
    lemma_accumulate_succ(v, 0);
}

/// Prices of valid ticks are strictly increasing, by at least one unit of the
/// carried value per unit of price.
pub proof fn lemma_sqrt_ratio_strictly_increasing(t1: int, t2: int)
    requires
        MIN_TICK <= t1 < t2 <= MAX_TICK,
    ensures
        sqrt_ratio(t1) < sqrt_ratio(t2),
        ratio_x176(t1) < ratio_x176(t2),
    decreases t2 - t1,
{
    lemma_ratio_step(t1);
    if t1 + 1 < t2 {
        lemma_sqrt_ratio_strictly_increasing(t1 + 1, t2);
    }
    vstd::arithmetic::div_mod::lemma_div_is_ordered(
        (ratio_x176(t1) + guard() + guard() - 1) as int,
        (ratio_x176(t1 + 1) + guard() - 1) as int,
        guard() as int,
    );
    vstd::arithmetic::div_mod::lemma_hoist_over_denominator(
        (ratio_x176(t1) + guard() - 1) as int,
        1,
        guard(),
    );
}

proof fn lemma_ratio_max()
    ensures
        ratio_x176(MAX_TICK as int)
            == 1766780653833955559743817361192619992848634268337705899795421689159104688nat,
{
    assert((MAX_TICK - MIN_TICK) as nat == 1774544);
    assert(accumulate(1774544, 0, 5192492030095814304395620157647443nat) == accumulate(887272, 1, 5192492030095814304395620157647443nat));
    assert(accumulate(887272, 1, 5192492030095814304395620157647443nat) == accumulate(443636, 2, 5192492030095814304395620157647443nat));
    assert(accumulate(443636, 2, 5192492030095814304395620157647443nat) == accumulate(221818, 3, 5192492030095814304395620157647443nat));
    assert(accumulate(221818, 3, 5192492030095814304395620157647443nat) == accumulate(110909, 4, 5192492030095814304395620157647443nat));
    assert(accumulate(110909, 4, 5192492030095814304395620157647443nat) == accumulate(55454, 5, 5196647477908475286704659087078034nat));
    assert(accumulate(55454, 5, 5196647477908475286704659087078034nat) == accumulate(27727, 6, 5196647477908475286704659087078034nat));
    assert(accumulate(27727, 6, 5196647477908475286704659087078034nat) == accumulate(13863, 7, 5213302551003341937927867498177990nat));
    assert(accumulate(13863, 7, 5213302551003341937927867498177990nat) == accumulate(6931, 8, 5246773005047867650938694115603101nat));
    assert(accumulate(6931, 8, 5246773005047867650938694115603101nat) == accumulate(3465, 9, 5314359953955879165142423554444120nat));
    assert(accumulate(3465, 9, 5314359953955879165142423554444120nat) == accumulate(1732, 10, 5452156955567378132756204526469352nat));
    assert(accumulate(1732, 10, 5452156955567378132756204526469352nat) == accumulate(866, 11, 5452156955567378132756204526469352nat));
    assert(accumulate(866, 11, 5452156955567378132756204526469352nat) == accumulate(433, 12, 5452156955567378132756204526469352nat));
    assert(accumulate(433, 12, 5452156955567378132756204526469352nat) == accumulate(216, 13, 6691252408844452822095143967730856nat));
    assert(accumulate(216, 13, 6691252408844452822095143967730856nat) == accumulate(108, 14, 6691252408844452822095143967730856nat));
    assert(accumulate(108, 14, 6691252408844452822095143967730856nat) == accumulate(54, 15, 6691252408844452822095143967730856nat));
    assert(accumulate(54, 15, 6691252408844452822095143967730856nat) == accumulate(27, 16, 6691252408844452822095143967730856nat));
    assert(accumulate(27, 16, 6691252408844452822095143967730856nat) == accumulate(13, 17, 177228034455649241677587918393366650nat));
    assert(accumulate(13, 17, 177228034455649241677587918393366650nat) == accumulate(6, 18, 124331861923217671367379162783005938101nat));
    assert(accumulate(6, 18, 124331861923217671367379162783005938101nat) == accumulate(3, 19, 124331861923217671367379162783005938101nat));
    assert(accumulate(3, 19, 124331861923217671367379162783005938101nat) == accumulate(1, 20, 30114974747333717738486652998377942906852861576710nat));
    assert(accumulate(1, 20, 30114974747333717738486652998377942906852861576710nat) == accumulate(0, 21, 1766780653833955559743817361192619992848634268337705899795421689159104688nat));
}

/// The price of every valid tick lies in `[MIN_SQRT_RATIO, max_sqrt_ratio()]`,
/// the two ends being the prices of `MIN_TICK` and `MAX_TICK`, and the
/// carried value stays below 2^256.
pub proof fn lemma_sqrt_ratio_bounds(tick: int)
    requires
        is_valid_tick(tick),
    ensures
        MIN_SQRT_RATIO <= sqrt_ratio(tick) <= max_sqrt_ratio(),
        tick < MAX_TICK ==> sqrt_ratio(tick) < max_sqrt_ratio(),
        sqrt_ratio(MIN_TICK as int) == MIN_SQRT_RATIO,
        sqrt_ratio(MAX_TICK as int) == max_sqrt_ratio(),
        ratio_x176(tick) <= 1766780653833955559743817361192619992848634268337705899795421689159104688nat,
{
    lemma_accumulate_zero(0, base_ratio());
    assert(ratio_x176(MIN_TICK as int) == base_ratio());
    lemma_ratio_max();
    if tick > MIN_TICK {
        lemma_sqrt_ratio_strictly_increasing(MIN_TICK as int, tick);
    }
    if tick < MAX_TICK {
        lemma_sqrt_ratio_strictly_increasing(tick, MAX_TICK as int);
    }
}

/// The tick of the price of any valid tick is that tick: the price lies in
/// the domain of `get_tick_at_sqrt_ratio`, which gives `tick_of` of it.
pub proof fn lemma_tick_round_trip(tick: int)
    requires
        is_valid_tick(tick),
    ensures
        MIN_SQRT_RATIO <= sqrt_ratio(tick) <= max_sqrt_ratio(),
        tick_of(sqrt_ratio(tick)) == tick,
{
    lemma_sqrt_ratio_bounds(tick);
    if tick < MAX_TICK {
        lemma_sqrt_ratio_strictly_increasing(tick, tick + 1);
    }
    assert(is_tick_of(tick, sqrt_ratio(tick)));
    lemma_tick_of_unique(tick, tick_of(sqrt_ratio(tick)), sqrt_ratio(tick));
}

/// The price of a tick known to be valid.
pub fn sqrt_ratio_at_valid_tick(tick: i32) -> (r: Uint256)
    requires
        is_valid_tick(tick as int),
    ensures
        r@ == sqrt_ratio(tick as int),
{
    proof {
        lemma_sqrt_ratio_bounds(tick as int);
    }
    let ghost total = ratio_x176(tick as int);
    let mut u: u32 = (tick as i64 - MIN_TICK as i64) as u32;
    let mut x = Uint256 { hi: 0, lo: 5192492030095814304395620157647443 };
    let one28 = Uint256 { hi: 1, lo: 0 };
    let mut i: usize = 0;
    while i < 21
        invariant
            i <= 21,
            accumulate(u as nat, i as nat, x@) == total,
            total <= 1766780653833955559743817361192619992848634268337705899795421689159104688nat,
            total == ratio_x176(tick as int),
            one28@ == b128(),
        decreases 21 - i,
    {
        if u % 2 == 1 {
            let f = tick_factor_exec(i);
            proof {
                lemma_accumulate_ge((u / 2) as nat, (i + 1) as nat, x@ * f@ / b128());
            }
            let r = mul_div_mod(&x, &f, &one28);
            x = r.unwrap().0;
        }
        u = u / 2;
        i = i + 1;
    }
    let g = Uint256 { hi: 0, lo: 1208925819614629174706176 };
    let one = Uint256::from_u128(1);
    proof {
        assert(x@ * 1 == x@);
    }
    let (q, m) = mul_div_mod(&x, &one, &g).unwrap();
    proof {
        vstd::arithmetic::div_mod::lemma_fundamental_div_mod(x@ as int, guard() as int);
        vstd::arithmetic::div_mod::lemma_fundamental_div_mod((x@ + guard() - 1) as int, guard() as int);
        if m@ == 0 {
            vstd::arithmetic::div_mod::lemma_hoist_over_denominator((x@ + guard() - 1) as int, 0, guard());
        }
    }
    if m.is_zero() {
        q
    } else {
        let one = Uint256::from_u128(1);
        q.checked_add(&one).unwrap()
    }
}

/// The Q64.96 square-root price of `tick`.
pub fn get_sqrt_ratio_at_tick(tick: i32) -> (r: Result<Uint256, LiquidityHelperError>)
    ensures
        is_valid_tick(tick as int) <==> r.is_ok(),
        r.is_ok() ==> r.unwrap()@ == sqrt_ratio(tick as int),
        r.is_err() ==> r == Err::<Uint256, LiquidityHelperError>(LiquidityHelperError::TickOutOfRange),
{
    if tick < MIN_TICK || tick > MAX_TICK {
        Err(LiquidityHelperError::TickOutOfRange)
    } else {
        Ok(sqrt_ratio_at_valid_tick(tick))
    }
}

/// The tick of a price known to lie in `[MIN_SQRT_RATIO, max_sqrt_ratio()]`.
pub fn tick_at_valid_sqrt_ratio(p: &Uint256) -> (r: i32)
    requires
        MIN_SQRT_RATIO <= p@ <= max_sqrt_ratio(),
    ensures
        is_tick_of(r as int, p@),
        r as int == tick_of(p@),
{
    proof {
        lemma_sqrt_ratio_bounds(MIN_TICK as int);
    }
    let mut lo: i32 = MIN_TICK;
    let mut hi: i32 = MAX_TICK;
    while lo < hi
        invariant
            MIN_TICK <= lo <= hi <= MAX_TICK,
            sqrt_ratio(lo as int) <= p@,
            hi == MAX_TICK || p@ < sqrt_ratio(hi + 1),
        decreases hi - lo,
    {
        let mid: i32 = lo + (hi - lo + 1) / 2;
        let s = sqrt_ratio_at_valid_tick(mid);
        if s.le(p) {
            lo = mid;
        } else {
            hi = mid - 1;
        }
    }
    proof {
        assert(is_tick_of(lo as int, p@));
        lemma_tick_of_unique(lo as int, tick_of(p@), p@);
    }
    lo
}

/// The tick of a Q64.96 square-root price: the greatest tick whose price is at
/// most `p`.
pub fn get_tick_at_sqrt_ratio(p: &Uint256) -> (r: Result<i32, LiquidityHelperError>)
    ensures
        (MIN_SQRT_RATIO <= p@ <= max_sqrt_ratio()) <==> r.is_ok(),
        r.is_ok() ==> is_tick_of(r.unwrap() as int, p@) && r.unwrap() as int == tick_of(p@),
        r.is_err() ==> r == Err::<i32, LiquidityHelperError>(LiquidityHelperError::SqrtRatioOutOfRange),
{
    let min = Uint256::from_u128(MIN_SQRT_RATIO);
    if p.lt(&min) || max_sqrt_ratio_value().lt(p) {
        Err(LiquidityHelperError::SqrtRatioOutOfRange)
    } else {
        Ok(tick_at_valid_sqrt_ratio(p))
    }
}

} // verus!
