//! Quantization presets: the grid that notes snap to.

use vstd::prelude::*;
use crate::text::{append_decimal, decimal_text, owned};

verus! {

/// Quantization preset: snap notes to a regular grid.
///
/// - `Fraction(num, den)`: `num / den` of a whole note
///   (e.g. `Fraction(1, 16)` = 1/16 note, `Fraction(3, 8)` = 3/8 note).
/// - `Absolute(n)`: every `n` ticks, independent of the PPQ.
#[derive(Clone, Copy, Debug, PartialEq, Eq, Structural)]
pub enum QuantizePreset {
    /// Note fraction: `num / den` of a whole note.
    Fraction(u32, u32),
    /// Absolute tick interval.
    Absolute(u32),
}

/// `min(a, u32::MAX)`: the value of a saturating `u32` operation.
pub open spec fn saturate_u32(a: int) -> int {
    if a > u32::MAX { u32::MAX as int } else { a }
}

/// `ceil(a / b)` for `a >= 0`, `b > 0`.
pub open spec fn ceil_div(a: int, b: int) -> int {
    (a + b - 1) / b
}

/// The tick interval of a preset at the given PPQ (ticks per quarter note):
/// `ceil(PPQ × 4 × num / den)` for a fraction, computed with saturating
/// multiplication, a zero PPQ or denominator counting as 1; `n` for
/// `Absolute(n)`.
pub open spec fn spec_tick_interval(p: QuantizePreset, ppq: u32) -> int {
    match p {
        QuantizePreset::Fraction(num, den) => {
            let d: int = if den == 0 { 1 } else { den as int };
            let q: int = if ppq == 0 { 1 } else { ppq as int };
            ceil_div(saturate_u32(saturate_u32(q * 4) * num), d)
        },
        QuantizePreset::Absolute(n) => n as int,
    }
}

/// Label text: `"num/den"` or `"n tick"`.
pub open spec fn spec_label(p: QuantizePreset) -> Seq<char> {
    match p {
        QuantizePreset::Fraction(num, den) => decimal_text(num as nat) + "/"@ + decimal_text(den as nat),
        QuantizePreset::Absolute(n) => decimal_text(n as nat) + " tick"@,
    }
}

/// Dropdown entry text: `"num/den  (t 刻度)"` with `t` the tick interval, or `"n 刻度"`.
pub open spec fn spec_display_item(p: QuantizePreset, ppq: u32) -> Seq<char> {
    match p {
        QuantizePreset::Fraction(_, _) => spec_label(p) + "  ("@ + decimal_text(spec_tick_interval(p, ppq) as nat)
            + " 刻度)"@,
        QuantizePreset::Absolute(n) => decimal_text(n as nat) + " 刻度"@,
    }
}

/// A fraction's interval is `PPQ × 4 × num / den` when that is a whole
/// number that fits in `u32`; an absolute interval ignores the PPQ.
pub proof fn lemma_tick_interval_exact(num: u32, den: u32, ppq: u32, p2: u32)
    requires
        den > 0,
        ppq > 0,
        ppq as int * 4 * num as int <= u32::MAX,
        (ppq as int * 4 * num as int) % (den as int) == 0,
    ensures
        spec_tick_interval(QuantizePreset::Fraction(num, den), ppq) * den == ppq as int * 4 * num as int,
        spec_tick_interval(QuantizePreset::Absolute(num), ppq) == spec_tick_interval(QuantizePreset::Absolute(num), p2),
{
    let a = ppq as int * 4 * num as int;
    let d = den as int;
    if num > 0 {
        assert(ppq as int * 4 <= ppq as int * 4 * num as int) by (nonlinear_arith)
            requires num >= 1, ppq > 0;
    } else {
        assert(saturate_u32(ppq as int * 4) * num == 0);
    }
    assert(saturate_u32(saturate_u32(ppq as int * 4) * num) == a);
    assert((a + d - 1) / d == a / d) by (nonlinear_arith)
        requires a % d == 0, d > 0, a >= 0;
    assert((a / d) * d == a) by (nonlinear_arith)
        requires a % d == 0, d > 0;
}

/// A fraction's interval is `PPQ × 4 × num / den` rounded up: the least whole
/// number of ticks that covers that length (when the product fits in `u32`).
pub proof fn lemma_tick_interval_rounds_up(num: u32, den: u32, ppq: u32)
    requires
        den > 0,
        ppq > 0,
        ppq as int * 4 * num as int <= u32::MAX,
    ensures
        ({
            let t = spec_tick_interval(QuantizePreset::Fraction(num, den), ppq);
            &&& t * den >= ppq as int * 4 * num as int
            &&& (t - 1) * den < ppq as int * 4 * num as int
        }),
{
    let a = ppq as int * 4 * num as int;
    let d = den as int;
    if num > 0 {
        assert(ppq as int * 4 <= ppq as int * 4 * num as int) by (nonlinear_arith)
            requires num >= 1, ppq > 0;
    } else {
        assert(saturate_u32(ppq as int * 4) * num == 0);
    }
    assert(saturate_u32(saturate_u32(ppq as int * 4) * num) == a);
    let t = (a + d - 1) / d;
    assert(t * d >= a && (t - 1) * d < a) by (nonlinear_arith)
        requires t == (a + d - 1) / d, d > 0, a >= 0;
}

fn saturating_mul_u32(a: u32, b: u32) -> (r: u32)
    ensures
        r == saturate_u32(a * b),
{
    match a.checked_mul(b) {
        Some(v) => v,
        None => u32::MAX,
    }
}

impl QuantizePreset {
    /// Common fraction presets in display order (excluding `Absolute`):
    /// whole to 1/128, then the triplets 1/6, 1/12, 1/24, 1/48.
    pub fn all() -> (r: Vec<QuantizePreset>)
        ensures
            r@ == seq![
                QuantizePreset::Fraction(1, 1),
                QuantizePreset::Fraction(1, 2),
                QuantizePreset::Fraction(1, 4),
                QuantizePreset::Fraction(1, 8),
                QuantizePreset::Fraction(1, 16),
                QuantizePreset::Fraction(1, 32),
                QuantizePreset::Fraction(1, 64),
                QuantizePreset::Fraction(1, 128),
                QuantizePreset::Fraction(1, 6),
                QuantizePreset::Fraction(1, 12),
                QuantizePreset::Fraction(1, 24),
                QuantizePreset::Fraction(1, 48),
            ],
    {
        vec![
            QuantizePreset::Fraction(1, 1),
            QuantizePreset::Fraction(1, 2),
            QuantizePreset::Fraction(1, 4),
            QuantizePreset::Fraction(1, 8),
            QuantizePreset::Fraction(1, 16),
            QuantizePreset::Fraction(1, 32),
            QuantizePreset::Fraction(1, 64),
            QuantizePreset::Fraction(1, 128),
            QuantizePreset::Fraction(1, 6),
            QuantizePreset::Fraction(1, 12),
            QuantizePreset::Fraction(1, 24),
            QuantizePreset::Fraction(1, 48),
        ]
    }

    /// Human-readable label (used in the button and dropdown).
    pub fn label(&self) -> (r: String)
        ensures
            r@ == spec_label(*self),
    {
        let mut s = String::new();
        match *self {
            QuantizePreset::Fraction(num, den) => {
                append_decimal(&mut s, num as u128);
                s.append("/");
                append_decimal(&mut s, den as u128);
            },
            QuantizePreset::Absolute(n) => {
                append_decimal(&mut s, n as u128);
                s.append(" tick");
            },
        }
        proof {
            match *self {
                QuantizePreset::Fraction(num, den) => {
                    assert(s@ =~= decimal_text(num as nat) + "/"@ + decimal_text(den as nat));
                },
                QuantizePreset::Absolute(n) => {
                    assert(s@ =~= decimal_text(n as nat) + " tick"@);
                },
            }
        }
        s
    }

    /// Tick interval for this preset, given the file's ticks per quarter note (PPQ).
    pub fn tick_interval(&self, ppq: u32) -> (r: u32)
        ensures
            r == spec_tick_interval(*self, ppq),
    {
        match *self {
            QuantizePreset::Fraction(num, den) => {
                let d: u32 = if den == 0 { 1 } else { den };
                let q: u32 = if ppq == 0 { 1 } else { ppq };
                let a = saturating_mul_u32(q, 4);
                let b = saturating_mul_u32(a, num);
                proof {
                    if b % d != 0 {
                        assert(d >= 2);
                        assert(b / d <= b / 2) by (nonlinear_arith)
                            requires d >= 2;
                    }
                }
                let r: u32 = b / d + if b % d != 0 { 1u32 } else { 0u32 };
                proof {
                    let bi = b as int;
                    let di = d as int;
                    assert(bi == di * (bi / di) + bi % di) by (nonlinear_arith)
                        requires di > 0;
                    assert(0 <= bi % di < di) by (nonlinear_arith)
                        requires di > 0;
                    if bi % di == 0 {
                        assert((bi + di - 1) / di == bi / di) by (nonlinear_arith)
                            requires di > 0, bi % di == 0, bi == di * (bi / di);
                    } else {
                        assert((bi + di - 1) / di == bi / di + 1) by (nonlinear_arith)
                            requires di > 0, 0 < bi % di < di, bi == di * (bi / di) + bi % di;
                    }
                }
                r
            },
            QuantizePreset::Absolute(n) => n,
        }
    }

    /// Display string for the dropdown list, e.g. `"1/8  (240 刻度)"` or `"3 刻度"`.
    pub fn display_item(&self, ppq: u32) -> (r: String)
        ensures
            r@ == spec_display_item(*self, ppq),
    {
        match *self {
            QuantizePreset::Fraction(_, _) => {
                let ticks = self.tick_interval(ppq);
                let mut s = self.label();
                s.append("  (");
                append_decimal(&mut s, ticks as u128);
                s.append(" 刻度)");
                proof {
                    assert(s@ =~= spec_label(*self) + "  ("@ + decimal_text(ticks as nat) + " 刻度)"@);
                }
                s
            },
            QuantizePreset::Absolute(n) => {
                let mut s = String::new();
                append_decimal(&mut s, n as u128);
                s.append(" 刻度");
                proof {
                    assert(s@ =~= decimal_text(n as nat) + " 刻度"@);
                }
                s
            },
        }
    }
}

impl Default for QuantizePreset {
    /// A quarter note.
    fn default() -> (r: Self)
        ensures
            r == QuantizePreset::Fraction(1, 4),
    {
        QuantizePreset::Fraction(1, 4)
    }
}

} // verus!
