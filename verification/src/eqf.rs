//! Classic Winamp `.EQF` equalizer preset files.
//!
//! Format: a 31-byte signature (`Winamp EQ library file v1.1\x1a!--`) followed
//! by one or more preset entries. Each entry is a 257-byte null-padded name,
//! then 11 bytes: the 10 band sliders (60/170/310/600/1k/3k/6k/12k/14k/16k Hz)
//! and the preamp last. Each slider is `0..=63` where 0 = +20 dB and 63 = -20 dB.

use vstd::prelude::*;
use crate::text::{trim, trim_chars, string_from_chars};

verus! {

pub const HEADER_LEN: usize = 31;
pub const NAME_LEN: usize = 257;
/// 10 bands + preamp.
pub const VALUES_LEN: usize = 11;
pub const ENTRY_LEN: usize = 268;

/// The signature every preset library starts with: `Winamp EQ library file v1.1`.
pub open spec fn eqf_magic() -> Seq<u8> {
    seq![
        87u8, 105, 110, 97, 109, 112, 32, 69, 81, 32, 108, 105, 98, 114, 97, 114, 121, 32,
        102, 105, 108, 101, 32, 118, 49, 46, 49,
    ]
}

fn magic_bytes() -> (r: Vec<u8>)
    ensures
        r@ == eqf_magic(),
{
    let r = vec![
        87u8, 105, 110, 97, 109, 112, 32, 69, 81, 32, 108, 105, 98, 114, 97, 114, 121, 32,
        102, 105, 108, 101, 32, 118, 49, 46, 49,
    ];
    assert(r@ =~= eqf_magic());
    r
}

/// The first preset of a `.EQF`/`.q1`/`.q2` file. The slider values are kept
/// as stored; `byte_to_db_scaled` turns one into its gain.
pub struct EqfPreset {
    pub name: String,
    /// Preamp slider position.
    pub preamp: u8,
    /// The 10 band slider positions, low to high frequency.
    pub bands: Vec<u8>,
}

/// The gain of a slider position in dB, multiplied by 63: sliders run
/// linearly from +20 dB (0) to -20 dB (63), and positions above 63 count as 63.
pub open spec fn slider_db_scaled(value: u8) -> int {
    let v = if value > 63 { 63 } else { value as int };
    1260 - 40 * v
}

/// The gain of a slider byte in dB × 63 (exactly `63 * (20 - min(v, 63) * 40/63)`).
pub fn byte_to_db_scaled(value: u8) -> (r: i32)
    ensures
        r == slider_db_scaled(value),
{
    let v: i32 = if value > 63 { 63 } else { value as i32 };
    1260 - 40 * v
}

/// The bytes of `s` before its first NUL.
pub open spec fn until_nul(s: Seq<u8>) -> Seq<u8>
    decreases s.len(),
{
    if s.len() == 0 {
        s
    } else if s[0] == 0 {
        Seq::empty()
    } else {
        seq![s[0]] + until_nul(s.drop_first())
    }
}

/// Each byte read as the character with that code point (`b as char`).
pub open spec fn latin1(s: Seq<u8>) -> Seq<char> {
    s.map_values(|b: u8| b as char)
}

pub open spec fn preset_word() -> Seq<char> {
    seq!['P', 'r', 'e', 's', 'e', 't']
}

/// Whether `bytes` is a preset library whose first entry is complete.
pub open spec fn is_eqf(bytes: Seq<u8>) -> bool {
    &&& bytes.len() >= eqf_magic().len()
    &&& bytes.subrange(0, eqf_magic().len() as int) == eqf_magic()
    &&& bytes.len() >= HEADER_LEN + ENTRY_LEN
}

/// The name of the first preset: its bytes up to the first NUL, or "Preset"
/// when that is blank.
pub open spec fn preset_name(bytes: Seq<u8>) -> Seq<char> {
    let raw = latin1(until_nul(bytes.subrange(HEADER_LEN as int, HEADER_LEN + NAME_LEN)));
    if trim(raw).len() == 0 {
        preset_word()
    } else {
        raw
    }
}

/// The slider bytes of the first preset (10 bands, then the preamp).
pub open spec fn preset_values(bytes: Seq<u8>) -> Seq<u8> {
    bytes.subrange(HEADER_LEN + NAME_LEN, HEADER_LEN + ENTRY_LEN)
}

fn name_chars(bytes: &[u8]) -> (r: Vec<char>)
    requires
        bytes@.len() >= HEADER_LEN + ENTRY_LEN,
    ensures
        r@ == latin1(until_nul(bytes@.subrange(HEADER_LEN as int, HEADER_LEN + NAME_LEN))),
{
    let ghost field = bytes@.subrange(HEADER_LEN as int, HEADER_LEN + NAME_LEN);
    let mut r: Vec<char> = Vec::new();
    let mut i: usize = 0;
    while i < NAME_LEN && bytes[HEADER_LEN + i] != 0
        invariant
            i <= NAME_LEN,
            bytes@.len() >= HEADER_LEN + ENTRY_LEN,
            field == bytes@.subrange(HEADER_LEN as int, HEADER_LEN + NAME_LEN),
            forall|j: int| 0 <= j < i ==> field[j] != 0,
            r@ == latin1(field.subrange(0, i as int)),
        decreases NAME_LEN - i,
    {
        r.push(crate::text::char_from_ascii(bytes[HEADER_LEN + i]));
        i += 1;
        assert(r@ =~= latin1(field.subrange(0, i as int)));
    }
    proof {
        lemma_until_nul_prefix(field, i as int);
    }
    r
}

proof fn lemma_until_nul_prefix(s: Seq<u8>, i: int)
    requires
        0 <= i <= s.len(),
        forall|j: int| 0 <= j < i ==> s[j] != 0,
        i == s.len() || s[i] == 0,
    ensures
        until_nul(s) == s.subrange(0, i),
    decreases s.len(),
{
    if s.len() == 0 {
        assert(s.subrange(0, i) =~= s);
    } else if i == 0 {
        assert(s.subrange(0, 0) =~= Seq::<u8>::empty());
    } else {
        let t = s.drop_first();
        assert forall|j: int| 0 <= j < i - 1 implies t[j] != 0 by {
            assert(t[j] == s[j + 1]);
        }
        if i - 1 < t.len() {
            assert(t[i - 1] == s[i]);
        }
        lemma_until_nul_prefix(t, i - 1);
        assert(seq![s[0]] + t.subrange(0, i - 1) =~= s.subrange(0, i));
    }
}

/// Parse the first preset out of a `.EQF`/`.q1`/`.q2` file; `None` when the
/// signature is missing or the first entry is cut short.
pub fn parse_first_preset(bytes: &[u8]) -> (r: Option<EqfPreset>)
    ensures
        r is Some <==> is_eqf(bytes@),
        r matches Some(p) ==> {
            &&& p.name@ == preset_name(bytes@)
            &&& p.bands@ == preset_values(bytes@).subrange(0, 10)
            &&& p.preamp == preset_values(bytes@)[10]
        },
{
    let magic = magic_bytes();
    if bytes.len() < magic.len() {
        return None;
    }
    let mut i: usize = 0;
    while i < magic.len()
        invariant
            i <= magic.len() <= bytes.len(),
            magic@ == eqf_magic(),
            forall|j: int| 0 <= j < i ==> bytes@[j] == magic@[j],
        decreases magic.len() - i,
    {
        if bytes[i] != magic[i] {
            assert(bytes@.subrange(0, eqf_magic().len() as int)[i as int] != eqf_magic()[i as int]);
            return None;
        }
        i += 1;
    }
    assert(bytes@.subrange(0, eqf_magic().len() as int) =~= eqf_magic());
    if bytes.len() < HEADER_LEN + ENTRY_LEN {
        return None;
    }
    let raw = name_chars(bytes);
    let trimmed = trim_chars(&raw);
    let name = if trimmed.len() == 0 {
        let word = vec!['P', 'r', 'e', 's', 'e', 't'];
        assert(word@ =~= preset_word());
        string_from_chars(&word)
    } else {
        string_from_chars(&raw)
    };
    let base = HEADER_LEN + NAME_LEN;
    let mut bands: Vec<u8> = Vec::new();
    let mut k: usize = 0;
    while k < 10
        invariant
            k <= 10,
            base == HEADER_LEN + NAME_LEN,
            bytes@.len() >= HEADER_LEN + ENTRY_LEN,
            bands@ == preset_values(bytes@).subrange(0, k as int),
        decreases 10 - k,
    {
        bands.push(bytes[base + k]);
        k += 1;
        assert(bands@ =~= preset_values(bytes@).subrange(0, k as int));
    }
    Some(EqfPreset { name, preamp: bytes[base + 10], bands })
}

proof fn lemma_until_nul(s: Seq<u8>)
    ensures
        until_nul(s).len() <= s.len(),
        forall|k: int| 0 <= k < until_nul(s).len() ==> #[trigger] until_nul(s)[k] == s[k] && s[k] != 0,
        until_nul(s).len() < s.len() ==> s[until_nul(s).len() as int] == 0,
    decreases s.len(),
{
    if s.len() > 0 && s[0] != 0 {
        let t = s.drop_first();
        lemma_until_nul(t);
        let u = until_nul(s);
        assert(u == seq![s[0]] + until_nul(t));
        assert forall|k: int| 0 <= k < u.len() implies #[trigger] u[k] == s[k] && s[k] != 0 by {
            if k > 0 {
                assert(u[k] == until_nul(t)[k - 1]);
                assert(t[k - 1] == s[k]);
            }
        }
        if u.len() < s.len() {
            assert(t[until_nul(t).len() as int] == s[u.len() as int]);
        }
    }
}

/// Where the first preset lies in the file: after the 31-byte header comes
/// its name, at most 257 bytes up to the first NUL, each byte read as one
/// character (or "Preset" when that is blank); the ten band sliders are the
/// bytes at offsets 288 to 297, and the preamp slider is byte 298.
pub proof fn law_eqf_layout(bytes: Seq<u8>)
    requires
        is_eqf(bytes),
    ensures
        bytes.len() >= 299,
        preset_values(bytes).subrange(0, 10) == bytes.subrange(288, 298),
        preset_values(bytes)[10] == bytes[298],
        ({
            let n = latin1(until_nul(bytes.subrange(31, 288)));
            &&& n.len() <= 257
            &&& forall|k: int| 0 <= k < n.len() ==> #[trigger] n[k] == (bytes[31 + k] as char) && bytes[31 + k] != 0
            &&& n.len() < 257 ==> bytes[31 + n.len() as int] == 0
            &&& preset_name(bytes) == if trim(n).len() == 0 {
                seq!['P', 'r', 'e', 's', 'e', 't']
            } else {
                n
            }
        }),
{
    let field = bytes.subrange(31, 288);
    lemma_until_nul(field);
    let u = until_nul(field);
    assert forall|k: int| 0 <= k < u.len() implies #[trigger] u[k] == bytes[31 + k] && bytes[31 + k] != 0 by {
        assert(u[k] == field[k]);
    }
    if u.len() < 257 {
        assert(field[u.len() as int] == bytes[31 + u.len() as int]);
    }
    assert(preset_values(bytes).subrange(0, 10) =~= bytes.subrange(288, 298));
}

/// A slider at the top is +20 dB, one at the bottom -20 dB, and positions past
/// the bottom read as the bottom.
pub proof fn law_slider_range(v: u8)
    ensures
        slider_db_scaled(0) == 63 * 20,
        slider_db_scaled(63) == -63 * 20,
        v >= 63 ==> slider_db_scaled(v) == slider_db_scaled(63),
        -1260 <= slider_db_scaled(v) <= 1260,
{
}

/// Moving a slider down never raises its gain.
pub proof fn law_slider_monotone(a: u8, b: u8)
    requires
        a <= b,
    ensures
        slider_db_scaled(b) <= slider_db_scaled(a),
{
}

} // verus!
