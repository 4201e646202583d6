//! The program image format: one hexadecimal instruction per line, `@hex`
//! to move the load address to `hex * 4`, `#label <name> <hex-addr>` for
//! debug labels, and blank or comment (`;`, `//`) lines.
use std::collections::HashMap;
use vstd::prelude::*;
use vstd::string::StringSliceAdditionalSpecFns;
use vstd::utf8::encode_utf8;

use crate::debugger::{is_space, is_space_byte, lemma_trim_range, parse_radix, radix_parse, trim_spec};

verus! {

broadcast use vstd::std_specs::hash::group_hash_axioms;

/// What one line of an image says.
#[derive(Debug, PartialEq, Eq)]
pub enum LineEffect {
    Skip,
    Label(Vec<u8>, u32),
    Origin(u32),
    Word(u32),
}

/// A line that cannot be read, by its number (from 1).
#[derive(Clone, Copy, Debug, PartialEq, Eq, Structural)]
pub enum ImageError {
    BadLine(usize),
}

/// A loaded program: bytes by physical address and the debug labels.
pub struct ProgramImage {
    pub bytes: HashMap<u32, u8>,
    pub labels: Vec<(Vec<u8>, u32)>,
}

/// The loader's state: bytes, labels and the load address.
pub struct ImageView {
    pub bytes: Map<u32, u8>,
    pub labels: Seq<(Seq<u8>, u32)>,
    pub pc: u32,
}

pub open spec fn wrap4(pc: u32, k: int) -> u32 {
    ((pc as int + k) % 0x1_0000_0000) as u32
}

/// The loader's state after a line of kind `kind`.
pub open spec fn apply_line(st: ImageView, kind: int, name: Seq<u8>, v: u32) -> ImageView {
    if kind == 1 {
        ImageView { labels: st.labels.push((name, v)), ..st }
    } else if kind == 2 {
        ImageView { pc: v, ..st }
    } else if kind == 3 {
        ImageView {
            bytes: st.bytes.insert(st.pc, (v & 0xFF) as u8).insert(wrap4(st.pc, 1), ((v >> 8u32) & 0xFF) as u8)
                .insert(wrap4(st.pc, 2), ((v >> 16u32) & 0xFF) as u8).insert(wrap4(st.pc, 3), (v >> 24u32) as u8),
            pc: wrap4(st.pc, 4),
            ..st
        }
    } else {
        st
    }
}

/// The loader's state after `lines`, or the number of the first line that
/// cannot be read.
pub open spec fn load_spec(lines: Seq<Seq<u8>>) -> Result<ImageView, usize>
    decreases lines.len(),
{
    if lines.len() == 0 {
        Ok(ImageView { bytes: Map::empty(), labels: Seq::empty(), pc: 0 })
    } else {
        match load_spec(lines.drop_last()) {
            Err(k) => Err(k),
            Ok(st) => match line_spec(lines.last()) {
                None => Err(lines.len() as usize),
                Some((kind, name, v)) => Ok(apply_line(st, kind, name, v)),
            },
        }
    }
}

/// The index of the first space in `s`, or its length.
pub open spec fn token_end(s: Seq<u8>) -> int
    decreases s.len(),
{
    if s.len() == 0 || is_space(s[0]) { 0 } else { 1 + token_end(s.drop_first()) }
}

/// The prefix `#label`.
pub open spec fn label_tag() -> Seq<u8> {
    seq![0x23u8, 0x6C, 0x61, 0x62, 0x65, 0x6C]
}

/// A line's effect as `line_spec` states it.
pub open spec fn effect_kind(e: LineEffect) -> (int, Seq<u8>, u32) {
    match e {
        LineEffect::Skip => (0, Seq::empty(), 0),
        LineEffect::Label(n, a) => (1, n@, a),
        LineEffect::Origin(a) => (2, Seq::empty(), a),
        LineEffect::Word(w) => (3, Seq::empty(), w),
    }
}

/// The kind of a line: skipped, label (with its name and address), origin
/// (the new load address) or instruction word; `None` when unreadable.
pub open spec fn line_spec(line: Seq<u8>) -> Option<(int, Seq<u8>, u32)> {
    let t = trim_spec(line);
    if t.len() == 0 || t[0] == 0x3B || (t.len() >= 2 && t[0] == 0x2F && t[1] == 0x2F) {
        Some((0, Seq::empty(), 0))
    } else if t.len() >= 6 && t.take(6) == label_tag() {
        let rest = trim_spec(t.skip(6));
        let e = token_end(rest);
        let name = rest.take(e);
        match radix_parse(trim_spec(rest.skip(e)), 16) {
            Some(a) => if e > 0 { Some((1, name, a)) } else { None },
            None => None,
        }
    } else if t[0] == 0x40 {
        match radix_parse(t.drop_first(), 16) {
            Some(a) => if a <= 0x3FFF_FFFF { Some((2, Seq::empty(), (a * 4) as u32)) } else { None },
            None => None,
        }
    } else {
        match radix_parse(t, 16) {
            Some(w) => Some((3, Seq::empty(), w)),
            None => None,
        }
    }
}

/// The bounds of `s[lo..hi]` without surrounding ASCII whitespace.
fn trim_bounds(s: &[u8], lo: usize, hi: usize) -> (r: (usize, usize))
    requires
        lo <= hi <= s@.len(),
    ensures
        lo <= r.0 <= r.1 <= hi,
        trim_spec(s@.subrange(lo as int, hi as int)) == s@.subrange(r.0 as int, r.1 as int),
{
    let mut a = lo;
    while a < hi && is_space_byte(s[a])
        invariant
            lo <= a <= hi <= s@.len(),
            forall|i: int| lo <= i < a ==> is_space(#[trigger] s@[i]),
        decreases hi - a,
    {
        a += 1;
    }
    let mut b = hi;
    while b > a && is_space_byte(s[b - 1])
        invariant
            lo <= a <= b <= hi <= s@.len(),
            forall|i: int| b <= i < hi ==> is_space(#[trigger] s@[i]),
        decreases b,
    {
        b -= 1;
    }
    proof {
        let t = s@.subrange(lo as int, hi as int);
        assert forall|i: int| 0 <= i < a - lo implies is_space(#[trigger] t[i]) by {
            assert(t[i] == s@[lo + i]);
        }
        assert forall|i: int| b - lo <= i < t.len() implies is_space(#[trigger] t[i]) by {
            assert(t[i] == s@[lo + i]);
        }
        lemma_trim_range(t, a - lo, b - lo);
        assert(t.subrange(a - lo, b - lo) =~= s@.subrange(a as int, b as int));
    }
    (a, b)
}

proof fn lemma_token_end(s: Seq<u8>, k: int)
    requires
        0 <= k <= s.len(),
        forall|i: int| 0 <= i < k ==> !is_space(#[trigger] s[i]),
        k == s.len() || is_space(s[k]),
    ensures
        token_end(s) == k,
    decreases k,
{
    if k > 0 {
        let t = s.drop_first();
        assert forall|i: int| 0 <= i < k - 1 implies !is_space(#[trigger] t[i]) by {
            assert(t[i] == s[i + 1]);
        }
        lemma_token_end(t, k - 1);
    }
}

/// Reads one line of an image (see `line_spec`): kinds 0 to 3 are
/// `Skip`, `Label`, `Origin` and `Word`.
pub fn parse_line(line: &[u8]) -> (r: Option<LineEffect>)
    ensures
        r is None <==> line_spec(line@) is None,
        r matches Some(e) ==> line_spec(line@) == Some(effect_kind(e)),
{
    let n = line.len();
    let (a, b) = trim_bounds(line, 0, n);
    assert(line@.subrange(0, n as int) =~= line@);
    let ghost t = line@.subrange(a as int, b as int);
    if a == b || line[a] == 0x3B || (b - a >= 2 && line[a] == 0x2F && line[a + 1] == 0x2F) {
        return Some(LineEffect::Skip);
    }
    let tag: [u8; 6] = [0x23u8, 0x6C, 0x61, 0x62, 0x65, 0x6C];
    let mut is_label = b - a >= 6;
    let mut k: usize = 0;
    while k < 6 && is_label
        invariant
            k <= 6,
            a <= b <= n == line@.len(),
            t == line@.subrange(a as int, b as int),
            tag@ == label_tag(),
            is_label ==> b - a >= 6 && forall|j: int| 0 <= j < k ==> line@[a + j] == label_tag()[j],
            !is_label ==> !(t.len() >= 6 && t.take(6) == label_tag()),
        decreases 6 - k,
    {
        if line[a + k] != tag[k] {
            is_label = false;
            assert(t[k as int] != label_tag()[k as int]);
            assert(t.len() >= 6 ==> t.take(6)[k as int] == t[k as int]);
        }
        k += 1;
    }
    if is_label {
        assert(t.take(6) =~= label_tag());
        let (c, d) = trim_bounds(line, a + 6, b);
        assert(t.skip(6) =~= line@.subrange(a + 6, b as int));
        let ghost rest = line@.subrange(c as int, d as int);
        let mut e = c;
        while e < d && !is_space_byte(line[e])
            invariant
                c <= e <= d <= line@.len(),
                forall|i: int| c <= i < e ==> !is_space(#[trigger] line@[i]),
            decreases d - e,
        {
            e += 1;
        }
        proof {
            assert forall|i: int| 0 <= i < e - c implies !is_space(#[trigger] rest[i]) by {
                assert(rest[i] == line@[c + i]);
            }
            if e < d {
                assert(rest[e - c] == line@[e as int]);
            }
            lemma_token_end(rest, e - c);
        }
        let mut name: Vec<u8> = Vec::new();
        let mut i = c;
        while i < e
            invariant
                c <= i <= e <= d <= line@.len(),
                name@ == line@.subrange(c as int, i as int),
            decreases e - i,
        {
            name.push(line[i]);
            i += 1;
            assert(name@ =~= line@.subrange(c as int, i as int));
        }
        assert(rest.take(e - c) =~= line@.subrange(c as int, e as int));
        let (f, g) = trim_bounds(line, e, d);
        assert(rest.skip(e - c) =~= line@.subrange(e as int, d as int));
        return match parse_radix(line, f, g, 16) {
            Some(addr) => if e > c { Some(LineEffect::Label(name, addr)) } else { None },
            None => None,
        };
    }
    if line[a] == 0x40 {
        assert(t.drop_first() =~= line@.subrange(a + 1, b as int));
        return match parse_radix(line, a + 1, b, 16) {
            Some(v) => if v <= 0x3FFF_FFFF { Some(LineEffect::Origin(v * 4)) } else { None },
            None => None,
        };
    }
    match parse_radix(line, a, b, 16) {
        Some(w) => Some(LineEffect::Word(w)),
        None => None,
    }
}

proof fn lemma_load_err_stays(lines: Seq<Seq<u8>>, j: int, k: usize)
    requires
        0 <= j <= lines.len(),
        load_spec(lines.take(j)) == Err::<ImageView, usize>(k),
    ensures
        load_spec(lines) == Err::<ImageView, usize>(k),
    decreases lines.len() - j,
{
    if j < lines.len() {
        assert(lines.take(j + 1).drop_last() =~= lines.take(j));
        lemma_load_err_stays(lines, j + 1, k);
    } else {
        assert(lines.take(j) =~= lines);
    }
}

/// Applies one line's effect to the loader's state; returns the new load
/// address.
fn apply_effect(bytes: &mut HashMap<u32, u8>, labels: &mut Vec<(Vec<u8>, u32)>, pc: u32, eff: LineEffect) -> (r: u32)
    ensures
        ({
            let (kind, name, v) = effect_kind(eff);
            (ImageView { bytes: final(bytes)@, labels: final(labels)@.map_values(|e: (Vec<u8>, u32)| (e.0@, e.1)), pc: r })
                == apply_line(
                ImageView { bytes: old(bytes)@, labels: old(labels)@.map_values(|e: (Vec<u8>, u32)| (e.0@, e.1)), pc },
                kind,
                name,
                v,
            )
        }),
{
    match eff {
        LineEffect::Skip => pc,
        LineEffect::Label(name, a) => {
            labels.push((name, a));
            assert(labels@.map_values(|e: (Vec<u8>, u32)| (e.0@, e.1)) =~= old(labels)@.map_values(
                |e: (Vec<u8>, u32)| (e.0@, e.1),
            ).push((labels@[labels@.len() - 1].0@, a)));
            pc
        },
        LineEffect::Origin(a) => a,
        LineEffect::Word(w) => {
            bytes.insert(pc, (w & 0xFF) as u8);
            bytes.insert(pc.wrapping_add(1), ((w >> 8u32) & 0xFF) as u8);
            bytes.insert(pc.wrapping_add(2), ((w >> 16u32) & 0xFF) as u8);
            bytes.insert(pc.wrapping_add(3), (w >> 24u32) as u8);
            pc.wrapping_add(4)
        },
    }
}

/// Loads an image given as its lines.
pub fn load_program(lines: &Vec<String>) -> (r: Result<ProgramImage, ImageError>)
    ensures
        match load_spec(lines@.map_values(|l: String| encode_utf8(l@))) {
            Err(k) => r == Err::<ProgramImage, ImageError>(ImageError::BadLine(k)),
            Ok(st) => match r {
                Ok(img) => img.bytes@ == st.bytes && img.labels@.map_values(|e: (Vec<u8>, u32)| (e.0@, e.1)) == st.labels,
                Err(_) => false,
            },
        },
{
    let ghost all = lines@.map_values(|l: String| encode_utf8(l@));
    let mut bytes: HashMap<u32, u8> = HashMap::new();
    let mut labels: Vec<(Vec<u8>, u32)> = Vec::new();
    let mut pc: u32 = 0;
    let mut i: usize = 0;
    assert(all.take(0) =~= Seq::<Seq<u8>>::empty());
    assert(labels@.map_values(|e: (Vec<u8>, u32)| (e.0@, e.1)) =~= Seq::<(Seq<u8>, u32)>::empty());
    assert(bytes@ =~= Map::<u32, u8>::empty());
    while i < lines.len()
        invariant
            i <= lines@.len(),
            all == lines@.map_values(|l: String| encode_utf8(l@)),
            load_spec(all.take(i as int)) == Ok::<ImageView, usize>(ImageView {
                bytes: bytes@,
                labels: labels@.map_values(|e: (Vec<u8>, u32)| (e.0@, e.1)),
                pc,
            }),
        decreases lines@.len() - i,
    {
        let line = lines[i].as_str().as_bytes();
        assert(all.take(i + 1).drop_last() =~= all.take(i as int));
        assert(all.take(i + 1).last() == line@);
        match parse_line(line) {
            None => {
                proof {
                    lemma_load_err_stays(all, i + 1, (i + 1) as usize);
                }
                return Err(ImageError::BadLine(i + 1));
            },
            Some(eff) => {
                pc = apply_effect(&mut bytes, &mut labels, pc, eff);
            },
        }
        i += 1;
    }
    assert(all.take(i as int) =~= all);
    Ok(ProgramImage { bytes, labels })
}

} // verus!
