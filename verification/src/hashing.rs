//! FNV-1a style 64-bit fingerprints: image texture keys and the recovery
//! snapshot signature.
use vstd::prelude::*;
use crate::strings::enc;
use vstd::wrapping::u64_specs;

verus! {

pub const FNV_OFFSET: u64 = 0xcbf2_9ce4_8422_2325u64;

pub const FNV_PRIME: u64 = 0x0000_0100_0000_01b3u64;

/// One mixing step: xor the value in, then multiply by the prime modulo 2^64.
pub open spec fn fnv_mix(h: u64, v: u64) -> u64 {
    u64_specs::wrapping_mul(h ^ v, FNV_PRIME)
}

/// The fingerprint of a sequence of values, mixed in order from the offset.
pub open spec fn fnv_hash(vals: Seq<u64>) -> u64
    decreases vals.len(),
{
    if vals.len() == 0 {
        FNV_OFFSET
    } else {
        fnv_mix(fnv_hash(vals.drop_last()), vals.last())
    }
}

pub open spec fn bytes_as_values(b: Seq<u8>) -> Seq<u64> {
    b.map_values(|x: u8| x as u64)
}

fn mix(h: u64, v: u64) -> (r: u64)
    ensures
        r == fnv_mix(h, v),
{
    (h ^ v).wrapping_mul(FNV_PRIME)
}

/// FNV-1a 64-bit hash of encoded image bytes, the key of its cached texture.
pub fn image_id(bytes: &[u8]) -> (h: u64)
    ensures
        h == fnv_hash(bytes_as_values(bytes@)),
{
    let mut h: u64 = FNV_OFFSET;
    let mut i: usize = 0;
    while i < bytes.len()
        invariant
            i <= bytes@.len(),
            h == fnv_hash(bytes_as_values(bytes@.take(i as int))),
        decreases bytes@.len() - i,
    {
        proof {
            let vs = bytes_as_values(bytes@.take(i + 1));
            assert(vs.drop_last() =~= bytes_as_values(bytes@.take(i as int)));
        }
        h = mix(h, bytes[i] as u64);
        i = i + 1;
    }
    proof {
        assert(bytes@.take(bytes@.len() as int) =~= bytes@);
    }
    h
}

/// The last `k` bytes (at most) of `b`, last byte first.
pub open spec fn rev_tail(b: Seq<u8>, k: nat) -> Seq<u64> {
    let n = if b.len() < k { b.len() } else { k };
    Seq::new(n, |i: int| b[b.len() - 1 - i] as u64)
}

/// What an in-progress edit contributes: its id, its byte length, and its
/// last sixteen bytes in reverse.
pub open spec fn edit_values(e: Option<(u64, Seq<char>)>) -> Seq<u64> {
    match e {
        Some((id, c)) => seq![id, enc(c).len() as u64] + rev_tail(enc(c), 16),
        None => Seq::empty(),
    }
}

/// An edit by its id and text.
pub open spec fn edit_view(e: Option<(u64, String)>) -> Option<(u64, Seq<char>)> {
    match e {
        Some((id, c)) => Some((id, c@)),
        None => None,
    }
}

/// The values the recovery signature mixes: the wet stroke's length, its
/// last point (x and y bits, timestamp), then the text edit and the note edit.
pub open spec fn signature_values(
    wet_len: u64,
    last_point: Option<(u32, u32, u32)>,
    text: Option<(u64, Seq<char>)>,
    note: Option<(u64, Seq<char>)>,
) -> Seq<u64> {
    seq![wet_len] + match last_point {
        Some((x, y, t)) => seq![x as u64, y as u64, t as u64],
        None => Seq::empty(),
    } + edit_values(text) + edit_values(note)
}

proof fn lemma_hash_extend(vals: Seq<u64>, v: u64)
    ensures
        fnv_hash(vals.push(v)) == fnv_mix(fnv_hash(vals), v),
{
    assert(vals.push(v).drop_last() =~= vals);
}

fn mix_edit(h: u64, e: &Option<(u64, String)>, Ghost(done): Ghost<Seq<u64>>) -> (r: u64)
    requires
        h == fnv_hash(done),
    ensures
        r == fnv_hash(done + edit_values(edit_view(*e))),
{
    match e {
        None => {
            assert(done + edit_values(edit_view(*e)) =~= done);
            h
        },
        Some((id, c)) => {
            let b = c.as_str().as_bytes();
            proof {
                lemma_hash_extend(done, *id);
                lemma_hash_extend(done.push(*id), b@.len() as u64);
            }
            let mut h = mix(h, *id);
            h = mix(h, b.len() as u64);
            let ghost base = done.push(*id).push(b@.len() as u64);
            let n: usize = if b.len() < 16 {
                b.len()
            } else {
                16
            };
            let mut i: usize = 0;
            while i < n
                invariant
                    n <= b@.len(),
                    n == (if b@.len() < 16 { b@.len() } else { 16 }),
                    i <= n,
                    h == fnv_hash(base + rev_tail(b@, 16).take(i as int)),
                decreases n - i,
            {
                proof {
                    let t = rev_tail(b@, 16);
                    assert(base + t.take(i + 1) =~= (base + t.take(i as int)).push(t[i as int]));
                    lemma_hash_extend(base + t.take(i as int), t[i as int]);
                }
                h = mix(h, b[b.len() - 1 - i] as u64);
                i = i + 1;
            }
            proof {
                let t = rev_tail(b@, 16);
                assert(t.take(n as int) =~= t);
                assert(done + edit_values(edit_view(*e)) =~= base + t);
            }
            h
        },
    }
}

/// Cheap fingerprint of the autosave state, used to skip a write when
/// nothing changed since the previous snapshot. The wet stroke's last point
/// comes as the bit patterns of its coordinates and its timestamp.
pub fn recovery_signature(
    wet_len: u64,
    last_point: Option<(u32, u32, u32)>,
    editing_text: &Option<(u64, String)>,
    editing_note: &Option<(u64, String)>,
) -> (h: u64)
    ensures
        h == fnv_hash(signature_values(wet_len, last_point, edit_view(*editing_text), edit_view(*editing_note))),
{
    proof {
        lemma_hash_extend(Seq::empty(), wet_len);
        assert(Seq::<u64>::empty().push(wet_len) =~= seq![wet_len]);
    }
    let mut h = mix(FNV_OFFSET, wet_len);
    let ghost mut done: Seq<u64> = seq![wet_len];
    match last_point {
        Some((x, y, t)) => {
            proof {
                lemma_hash_extend(done, x as u64);
                lemma_hash_extend(done.push(x as u64), y as u64);
                lemma_hash_extend(done.push(x as u64).push(y as u64), t as u64);
            }
            h = mix(h, x as u64);
            h = mix(h, y as u64);
            h = mix(h, t as u64);
            proof {
                done = done.push(x as u64).push(y as u64).push(t as u64);
                assert(done =~= seq![wet_len] + seq![x as u64, y as u64, t as u64]);
            }
        },
        None => {
            assert(done =~= seq![wet_len] + Seq::<u64>::empty());
        },
    }
    let h2 = mix_edit(h, editing_text, Ghost(done));
    let ghost done2 = done + edit_values(edit_view(*editing_text));
    let h3 = mix_edit(h2, editing_note, Ghost(done2));
    proof {
        assert(done2 + edit_values(edit_view(*editing_note)) =~= signature_values(
            wet_len,
            last_point,
            edit_view(*editing_text),
            edit_view(*editing_note),
        ));
    }
    h3
}

} // verus!
