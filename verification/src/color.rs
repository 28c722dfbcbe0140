//! Deterministic nickname colors: a username is folded into a 32-bit hash,
//! the hash picks a hue, and the hue is turned into an RGB triple at fixed
//! saturation (3/4) and lightness (13/20) by the standard chroma/hue-sector
//! formula, evaluated in exact integer arithmetic.

use vstd::prelude::*;

verus! {

/// One fold step: multiply the accumulator by 31 and add the character's
/// code point, wrapping modulo 2^32.
pub open spec fn hash_step(h: u32, c: char) -> u32 {
    (((h as int) * 31 + (c as u32)) % 0x1_0000_0000) as u32
}

/// The 32-bit wrapping left-fold of a name's characters, starting from 0.
pub open spec fn spec_name_hash(s: Seq<char>) -> u32
    decreases s.len(),
{
    if s.len() == 0 {
        0u32
    } else {
        hash_step(spec_name_hash(s.drop_last()), s.last())
    }
}

/// The middle color channel for a hue: the exact integer value of
/// `((c * (1 - |((hue/60) mod 2) - 1|) + m) * 255)` with chroma `c = 21/40`
/// and offset `m = 31/80`, truncated. Always between 98 and 232.
pub open spec fn spec_mix_channel(hue: int) -> int {
    let fold = hue % 120;
    let dist = if fold >= 60 {
        fold - 60
    } else {
        60 - fold
    };
    (1785 * (60 - dist) + 79050) / 800
}

/// The RGB triple for a username: hue = hash mod 360; the hue's sector of
/// 60 degrees arranges the high channel (232), the mixed channel and the
/// low channel (98).
pub open spec fn spec_username_color(s: Seq<char>) -> (u8, u8, u8) {
    let hue = (spec_name_hash(s) as int) % 360;
    let mix = spec_mix_channel(hue) as u8;
    let sector = hue / 60;
    if sector == 0 {
        (232u8, mix, 98u8)
    } else if sector == 1 {
        (mix, 232u8, 98u8)
    } else if sector == 2 {
        (98u8, 232u8, mix)
    } else if sector == 3 {
        (98u8, mix, 232u8)
    } else if sector == 4 {
        (mix, 98u8, 232u8)
    } else {
        (232u8, 98u8, mix)
    }
}

proof fn lemma_hash_step_wrapping(h: u32, c: char)
    ensures
        vstd::wrapping::u32_specs::wrapping_add(
            vstd::wrapping::u32_specs::wrapping_mul(h, 31),
            c as u32,
        ) == hash_step(h, c),
{
    let m = 0x1_0000_0000int;
    let a = (h as int) * 31;
    let b = (c as u32) as int;
    let p = vstd::wrapping::u32_specs::wrapping_mul(h, 31);
    assert(a >= 0 && a == (h as nat) * 31) by (nonlinear_arith)
        requires
            a == (h as int) * 31,
    ;
    assert(p as int == a % m) by {
        assert(p == (((h as nat) * 31) % 0x1_0000_0000nat) as u32);
        assert(((h as nat) * 31) % 0x1_0000_0000nat == a % m) by (nonlinear_arith)
            requires
                a == (h as nat) * 31,
                m == 0x1_0000_0000int,
        ;
    }
    vstd::arithmetic::div_mod::lemma_add_mod_noop(a, b, m);
    vstd::arithmetic::div_mod::lemma_small_mod(b as nat, m as nat);
    assert(p as int + b == a % m + b % m);
    assert((p as int + b) % m == (a + b) % m);
    assert(0 <= p as int + b < 2 * m);
    assert((p as int + b) % m == if p as int + b >= m {
        p as int + b - m
    } else {
        p as int + b
    }) by (nonlinear_arith)
        requires
            0 <= p as int + b < 2 * m,
            m == 0x1_0000_0000int,
    ;
}

/// Converts a username to its stable color triple.
pub fn username_to_color(hash: &str) -> (rgb: (u8, u8, u8))
    ensures
        rgb == spec_username_color(hash@),
{
    let n = hash.unicode_len();
    let mut acc: u32 = 0;
    let mut i: usize = 0;
    while i < n
        invariant
            n == hash@.len(),
            i <= n,
            acc == spec_name_hash(hash@.take(i as int)),
        decreases n - i,
    {
        let c = hash.get_char(i);
        proof {
            lemma_hash_step_wrapping(acc, c);
            assert(hash@.take(i + 1).drop_last() =~= hash@.take(i as int));
            assert(hash@.take(i + 1).last() == hash@[i as int]);
        }
        acc = acc.wrapping_mul(31).wrapping_add(c as u32);
        i = i + 1;
    }
    proof {
        assert(hash@.take(n as int) =~= hash@);
    }
    let hue: u32 = acc % 360;
    let fold: u32 = hue % 120;
    let dist: u32 = if fold >= 60 {
        fold - 60
    } else {
        60 - fold
    };
    let mix32: u32 = (1785 * (60 - dist) + 79050) / 800;
    assert(mix32 == spec_mix_channel(hue as int));
    assert(98 <= mix32 <= 232);
    let mix: u8 = mix32 as u8;
    let sector: u32 = hue / 60;
    if sector == 0 {
        (232, mix, 98)
    } else if sector == 1 {
        (mix, 232, 98)
    } else if sector == 2 {
        (98, 232, mix)
    } else if sector == 3 {
        (98, mix, 232)
    } else {
        if sector == 4 {
            (mix, 98, 232)
        } else {
            (232, 98, mix)
        }
    }
}

/// Color derivation is a pure function of the username: equal names always
/// yield equal triples.
pub proof fn lemma_color_deterministic(a: Seq<char>, b: Seq<char>)
    requires
        a == b,
    ensures
        spec_username_color(a) == spec_username_color(b),
{
}

} // verus!
