//! The encoding of names and values in the registry-backed store: UTF-16
//! code units, each written as two bytes, low byte first, with a
//! terminating null unit.
use vstd::prelude::*;

verus! {

/// The UTF-16 code units of the text `s`.
pub uninterp spec fn utf16_of(s: Seq<char>) -> Seq<u16>;

/// The text that the UTF-16 code units `units` decode to, each unit that
/// is not part of valid UTF-16 read as the replacement character.
pub uninterp spec fn lossy_of(units: Seq<u16>) -> Seq<char>;

/// Relies on `str::encode_utf16`: the UTF-16 code units of `s`.
#[verifier::external_body]
fn encode_utf16(s: &str) -> (r: Vec<u16>)
    ensures
        r@ == utf16_of(s@),
{
    s.encode_utf16().collect()
}

/// Relies on `String::from_utf16_lossy`: the text of `units`, with invalid
/// units replaced.
#[verifier::external_body]
fn decode_utf16_lossy(units: &Vec<u16>) -> (r: String)
    ensures
        r@ == lossy_of(units@),
{
    String::from_utf16_lossy(units)
}

/// The bytes of the units `u`, two for each, low byte first.
pub open spec fn le_bytes(u: Seq<u16>) -> Seq<u8> {
    Seq::new(
        2 * u.len(),
        |j: int|
            if j % 2 == 0 {
                (u[j / 2] % 256) as u8
            } else {
                (u[j / 2] / 256) as u8
            },
    )
}

/// The units that the bytes `b` hold, low byte first; a last odd byte is a
/// unit of its own.
pub open spec fn le_units(b: Seq<u8>) -> Seq<u16> {
    Seq::new(
        ((b.len() + 1) / 2) as nat,
        |i: int|
            if 2 * i + 1 < b.len() {
                (b[2 * i] + 256 * b[2 * i + 1]) as u16
            } else {
                b[2 * i] as u16
            },
    )
}

/// The bytes of `units`, two for each, low byte first.
pub fn units_to_bytes(units: &Vec<u16>) -> (r: Vec<u8>)
    ensures
        r@ == le_bytes(units@),
{
    let mut out: Vec<u8> = Vec::new();
    let mut i: usize = 0;
    while i < units.len()
        invariant
            i <= units.len(),
            out@ =~= le_bytes(units@.subrange(0, i as int)),
        decreases units.len() - i,
    {
        let e = units[i];
        out.push((e % 256) as u8);
        out.push((e / 256) as u8);
        proof {
            let l = le_bytes(units@.subrange(0, i as int + 1));
            assert forall|j: int| 0 <= j < l.len() implies out@[j] == l[j] by {
                if j < 2 * i {
                    assert(units@.subrange(0, i as int + 1)[j / 2] == units@.subrange(0, i as int)[j
                        / 2]);
                }
            }
        }
        i = i + 1;
    }
    assert(units@.subrange(0, i as int) =~= units@);
    out
}

/// The units that `data` holds, two bytes each, low byte first.
pub fn bytes_to_units(data: &Vec<u8>) -> (r: Vec<u16>)
    ensures
        r@ == le_units(data@),
{
    let mut out: Vec<u16> = Vec::new();
    let mut i: usize = 0;
    while i + 1 < data.len()
        invariant
            i % 2 == 0,
            i <= data.len(),
            out@.len() == i / 2,
            forall|k: int| 0 <= k < out@.len() ==> out@[k] == le_units(data@)[k],
        decreases data.len() - i,
    {
        let lo = data[i] as u16;
        let hi = data[i + 1] as u16;
        out.push(lo + 256 * hi);
        i = i + 2;
    }
    if i < data.len() {
        out.push(data[i] as u16);
    }
    assert(out@ =~= le_units(data@));
    out
}

/// The store of the user's environment in the registry; the calls that
/// reach the registry are made by the program around this library.
pub struct EnvironmentRegistry;

impl EnvironmentRegistry {
    pub fn new() -> (r: EnvironmentRegistry) {
        EnvironmentRegistry
    }

    /// The UTF-16 units of `s` with a terminating null unit.
    pub fn string_to_u16vec(s: &String) -> (r: Vec<u16>)
        ensures
            r@ == utf16_of(s@).push(0),
    {
        let mut ws = encode_utf16(s.as_str());
        ws.push(0);
        ws
    }

    /// The bytes that the registry stores for the text `s`.
    pub fn string_to_u8vec(s: &String) -> (r: Vec<u8>)
        ensures
            r@ == le_bytes(utf16_of(s@).push(0)),
    {
        let units = Self::string_to_u16vec(s);
        units_to_bytes(&units)
    }

    /// The text that the registry's bytes `data` hold.
    pub fn u8vec_to_string(data: &Vec<u8>) -> (r: String)
        ensures
            r@ == lossy_of(le_units(data@)),
    {
        let units = bytes_to_units(data);
        decode_utf16_lossy(&units)
    }
}

} // verus!
