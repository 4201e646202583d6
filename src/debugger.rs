//! Debugger support: watchpoints, address parsing and formatting helpers.
use vstd::prelude::*;
use vstd::string::{StringExecFns, StringSliceAdditionalSpecFns};
use vstd::utf8::encode_utf8;

verus! {

/// Which accesses a watchpoint stops on.
#[derive(Clone, Copy, Debug, PartialEq, Eq, Structural)]
pub enum WatchKind {
    Read,
    Write,
    ReadWrite,
}

/// The kind of access that hit a watchpoint.
#[derive(Clone, Copy, Debug, PartialEq, Eq, Structural)]
pub enum WatchAccess {
    Read,
    Write,
}

/// A watched virtual address.
#[derive(Clone, Copy, Debug, PartialEq, Eq, Structural)]
pub struct Watchpoint {
    pub addr: u32,
    pub kind: WatchKind,
}

/// A latched watchpoint hit: the byte address, the access and the byte.
#[derive(Clone, Copy, Debug, PartialEq, Eq, Structural)]
pub struct WatchpointHit {
    pub addr: u32,
    pub access: WatchAccess,
    pub value: u8,
}

/// Whether a watchpoint of kind `kind` stops on `access`.
pub open spec fn kind_matches(kind: WatchKind, access: WatchAccess) -> bool {
    match kind {
        WatchKind::Read => access == WatchAccess::Read,
        WatchKind::Write => access == WatchAccess::Write,
        WatchKind::ReadWrite => true,
    }
}

/// Whether some watchpoint of `wps` stops on `access` at `addr`.
pub open spec fn watched(wps: Seq<Watchpoint>, addr: u32, access: WatchAccess) -> bool {
    exists|i: int| 0 <= i < wps.len() && (#[trigger] wps[i]).addr == addr && kind_matches(wps[i].kind, access)
}

/// The first hit among byte accesses at `addrs` with values `bytes`.
pub open spec fn first_hit(wps: Seq<Watchpoint>, addrs: Seq<u32>, bytes: Seq<u8>, access: WatchAccess) -> Option<
    WatchpointHit,
>
    decreases addrs.len(),
{
    if addrs.len() == 0 || bytes.len() == 0 {
        None
    } else if watched(wps, addrs[0], access) {
        Some(WatchpointHit { addr: addrs[0], access, value: bytes[0] })
    } else {
        first_hit(wps, addrs.drop_first(), bytes.drop_first(), access)
    }
}

pub fn kind_matches_exec(kind: WatchKind, access: WatchAccess) -> (r: bool)
    ensures
        r == kind_matches(kind, access),
{
    match kind {
        WatchKind::Read => matches!(access, WatchAccess::Read),
        WatchKind::Write => matches!(access, WatchAccess::Write),
        WatchKind::ReadWrite => true,
    }
}

/// Whether some watchpoint in `wps` stops on `access` at `addr`.
pub fn is_watched(wps: &Vec<Watchpoint>, addr: u32, access: WatchAccess) -> (r: bool)
    ensures
        r == watched(wps@, addr, access),
{
    let mut i: usize = 0;
    while i < wps.len()
        invariant
            i <= wps@.len(),
            forall|j: int| 0 <= j < i ==> !((#[trigger] wps@[j]).addr == addr && kind_matches(wps@[j].kind, access)),
        decreases wps@.len() - i,
    {
        if wps[i].addr == addr && kind_matches_exec(wps[i].kind, access) {
            return true;
        }
        i += 1;
    }
    false
}

/// The first hit among byte accesses at `addrs` with values `bytes`.
pub fn find_hit(wps: &Vec<Watchpoint>, addrs: &Vec<u32>, bytes: &Vec<u8>, access: WatchAccess) -> (r: Option<WatchpointHit>)
    requires
        addrs@.len() == bytes@.len(),
    ensures
        r == first_hit(wps@, addrs@, bytes@, access),
{
    let mut i: usize = 0;
    assert(addrs@.subrange(0, addrs@.len() as int) =~= addrs@);
    assert(bytes@.subrange(0, bytes@.len() as int) =~= bytes@);
    while i < addrs.len()
        invariant
            i <= addrs@.len(),
            addrs@.len() == bytes@.len(),
            first_hit(wps@, addrs@, bytes@, access) == first_hit(
                wps@,
                addrs@.subrange(i as int, addrs@.len() as int),
                bytes@.subrange(i as int, bytes@.len() as int),
                access,
            ),
        decreases addrs@.len() - i,
    {
        assert(addrs@.subrange(i as int, addrs@.len() as int).drop_first() =~= addrs@.subrange(i + 1, addrs@.len() as int));
        assert(bytes@.subrange(i as int, bytes@.len() as int).drop_first() =~= bytes@.subrange(i + 1, bytes@.len() as int));
        if is_watched(wps, addrs[i], access) {
            return Some(WatchpointHit { addr: addrs[i], access, value: bytes[i] });
        }
        i += 1;
    }
    None
}

/// Whether `b` is ASCII whitespace.
pub open spec fn is_space(b: u8) -> bool {
    b == 0x20 || b == 0x09 || b == 0x0A || b == 0x0D || b == 0x0C
}

/// `s` without leading and trailing ASCII whitespace.
pub open spec fn trim_spec(s: Seq<u8>) -> Seq<u8>
    decreases s.len(),
{
    if s.len() > 0 && is_space(s[0]) {
        trim_spec(s.drop_first())
    } else if s.len() > 0 && is_space(s.last()) {
        trim_spec(s.drop_last())
    } else {
        s
    }
}

/// The value of digit `b` in base `radix` (10 or 16).
pub open spec fn digit_value(b: u8, radix: nat) -> Option<nat> {
    if 0x30 <= b <= 0x39 {
        Some((b - 0x30) as nat)
    } else if radix == 16 && 0x61 <= b <= 0x66 {
        Some((b - 0x61 + 10) as nat)
    } else if radix == 16 && 0x41 <= b <= 0x46 {
        Some((b - 0x41 + 10) as nat)
    } else {
        None
    }
}

/// The number that the digits `s` write in base `radix`.
pub open spec fn digits_value(s: Seq<u8>, radix: nat) -> Option<nat>
    decreases s.len(),
{
    if s.len() == 0 {
        Some(0)
    } else {
        match (digits_value(s.drop_last(), radix), digit_value(s.last(), radix)) {
            (Some(v), Some(d)) => Some(v * radix + d),
            _ => None,
        }
    }
}

/// A `u32` written in base `radix` with an optional leading `+`, as std's
/// integer parsing reads it: no digits, a bad digit or a value beyond
/// `u32::MAX` give `None`.
pub open spec fn radix_parse(s: Seq<u8>, radix: nat) -> Option<u32> {
    let t = if s.len() > 0 && s[0] == 0x2B { s.drop_first() } else { s };
    if t.len() == 0 {
        None
    } else {
        match digits_value(t, radix) {
            Some(v) => if v <= u32::MAX { Some(v as u32) } else { None },
            None => None,
        }
    }
}

/// Whether every byte of `s` is a hexadecimal digit.
pub open spec fn all_hex(s: Seq<u8>) -> bool {
    forall|i: int| 0 <= i < s.len() ==> (#[trigger] digit_value(s[i], 16)) is Some
}

/// An address as the debugger reads it: `0x`/`0X` and hexadecimal, else
/// decimal, else bare hexadecimal; surrounding ASCII whitespace is ignored.
pub open spec fn parse_addr_spec(s: Seq<u8>) -> Option<u32> {
    let t = trim_spec(s);
    if t.len() >= 2 && t[0] == 0x30 && (t[1] == 0x78 || t[1] == 0x58) {
        radix_parse(t.subrange(2, t.len() as int), 16)
    } else if radix_parse(t, 10) is Some {
        radix_parse(t, 10)
    } else if all_hex(t) {
        radix_parse(t, 16)
    } else {
        None
    }
}

fn digit_of(b: u8, radix: u64) -> (r: Option<u64>)
    requires
        radix == 10 || radix == 16,
    ensures
        r matches Some(d) ==> digit_value(b, radix as nat) == Some(d as nat) && d < radix,
        r is None ==> digit_value(b, radix as nat) is None,
{
    if 0x30 <= b && b <= 0x39 {
        Some((b - 0x30) as u64)
    } else if radix == 16 && 0x61 <= b && b <= 0x66 {
        Some((b - 0x61 + 10) as u64)
    } else if radix == 16 && 0x41 <= b && b <= 0x46 {
        Some((b - 0x41 + 10) as u64)
    } else {
        None
    }
}

proof fn lemma_digits_grow(s: Seq<u8>, radix: nat, i: int)
    requires
        0 <= i < s.len(),
        radix >= 2,
        digits_value(s.take(i + 1), radix) is Some,
    ensures
        digits_value(s.take(i + 1), radix)->Some_0 >= digits_value(s.take(i), radix)->Some_0,
        digits_value(s.take(i), radix) is Some,
{
    assert(s.take(i + 1).drop_last() =~= s.take(i));
    let v = digits_value(s.take(i), radix)->Some_0;
    assert(v * radix >= v) by (nonlinear_arith)
        requires radix >= 2;
}

/// Once the digits exceed `u32::MAX`, more digits keep them above it (or
/// make them invalid).
proof fn lemma_digits_stay_big(s: Seq<u8>, radix: nat, i: int)
    requires
        0 <= i <= s.len(),
        radix >= 2,
        digits_value(s.take(i), radix) matches Some(v) && v > u32::MAX,
    ensures
        digits_value(s, radix) matches Some(w) ==> w > u32::MAX,
    decreases s.len() - i,
{
    if i < s.len() {
        if digits_value(s.take(i + 1), radix) is Some {
            lemma_digits_grow(s, radix, i);
            lemma_digits_stay_big(s, radix, i + 1);
        } else {
            lemma_digits_none_stays(s, radix, i + 1);
        }
    } else {
        assert(s.take(i) =~= s);
    }
}

proof fn lemma_digits_none_stays(s: Seq<u8>, radix: nat, i: int)
    requires
        0 <= i <= s.len(),
        digits_value(s.take(i), radix) is None,
    ensures
        digits_value(s, radix) is None,
    decreases s.len() - i,
{
    if i < s.len() {
        assert(s.take(i + 1).drop_last() =~= s.take(i));
        lemma_digits_none_stays(s, radix, i + 1);
    } else {
        assert(s.take(i) =~= s);
    }
}

/// Parses `s[start..end]` as `radix_parse` does.
pub fn parse_radix(s: &[u8], start: usize, end: usize, radix: u64) -> (r: Option<u32>)
    requires
        start <= end <= s@.len(),
        radix == 10 || radix == 16,
    ensures
        r == radix_parse(s@.subrange(start as int, end as int), radix as nat),
{
    let ghost whole = s@.subrange(start as int, end as int);
    let mut i = start;
    if i < end && s[i] == 0x2B {
        i += 1;
    }
    let ghost t = s@.subrange(i as int, end as int);
    assert(t =~= if whole.len() > 0 && whole[0] == 0x2B { whole.drop_first() } else { whole });
    if i == end {
        return None;
    }
    let first = i;
    let mut acc: u64 = 0;
    assert(t.take(0) =~= Seq::<u8>::empty());
    while i < end
        invariant
            first <= i <= end <= s@.len(),
            t == s@.subrange(first as int, end as int),
            t.len() > 0,
            whole == s@.subrange(start as int, end as int),
            t == (if whole.len() > 0 && whole[0] == 0x2B { whole.drop_first() } else { whole }),
            radix == 10 || radix == 16,
            acc <= u32::MAX,
            digits_value(t.take(i - first), radix as nat) == Some(acc as nat),
        decreases end - i,
    {
        let d = match digit_of(s[i], radix) {
            Some(d) => d,
            None => {
                proof {
                    assert(t.take(i - first + 1).drop_last() =~= t.take(i - first));
                    assert(t.take(i - first + 1).last() == s@[i as int]);
                    lemma_digits_none_stays(t, radix as nat, i - first + 1);
                    assert(digits_value(t, radix as nat) is None);
                    assert(radix_parse(whole, radix as nat) is None);
                }
                return None;
            },
        };
        proof {
            assert(t.take(i - first + 1).drop_last() =~= t.take(i - first));
            assert(t.take(i - first + 1).last() == s@[i as int]);
        }
        assert(acc * radix + d <= 0xFFFF_FFFF * 16 + 16) by (nonlinear_arith)
            requires acc <= 0xFFFF_FFFF, radix <= 16, d < 16;
        let next = acc * radix + d;
        if next > 0xFFFF_FFFF {
            proof {
                assert(digits_value(t.take(i - first + 1), radix as nat) == Some(next as nat));
                lemma_digits_stay_big(t, radix as nat, i - first + 1);
                assert(radix_parse(whole, radix as nat) is None);
            }
            return None;
        }
        acc = next;
        i += 1;
    }
    assert(t.take(i - first) =~= t);
    Some(acc as u32)
}

pub fn is_space_byte(b: u8) -> (r: bool)
    ensures
        r == is_space(b),
{
    b == 0x20 || b == 0x09 || b == 0x0A || b == 0x0D || b == 0x0C
}

pub proof fn lemma_trim_range(s: Seq<u8>, a: int, b: int)
    requires
        0 <= a <= b <= s.len(),
        forall|i: int| 0 <= i < a ==> is_space(#[trigger] s[i]),
        forall|i: int| b <= i < s.len() ==> is_space(#[trigger] s[i]),
        a < b ==> !is_space(s[a]) && !is_space(s[b - 1]),
        a == b ==> b == s.len(),
    ensures
        trim_spec(s) == s.subrange(a, b),
    decreases s.len(),
{
    if s.len() > 0 && is_space(s[0]) {
        assert(a > 0);
        let t = s.drop_first();
        assert forall|i: int| 0 <= i < a - 1 implies is_space(#[trigger] t[i]) by {
            assert(t[i] == s[i + 1]);
        }
        assert forall|i: int| b - 1 <= i < t.len() implies is_space(#[trigger] t[i]) by {
            assert(t[i] == s[i + 1]);
        }
        lemma_trim_range(t, a - 1, b - 1);
        assert(t.subrange(a - 1, b - 1) =~= s.subrange(a, b));
    } else if s.len() > 0 && is_space(s.last()) {
        assert(b < s.len());
        let t = s.drop_last();
        lemma_trim_range(t, a, b);
        assert(t.subrange(a, b) =~= s.subrange(a, b));
    } else {
        if s.len() > 0 {
            assert(a == 0);
            assert(b == s.len());
        }
        assert(s.subrange(a, b) =~= s);
    }
}

/// Parses a debugger address (see `parse_addr_spec`).
pub fn parse_addr(token: &str) -> (r: Option<u32>)
    ensures
        r == parse_addr_spec(token.spec_bytes()),
{
    let s = token.as_bytes();
    let n = s.len();
    let mut a: usize = 0;
    while a < n && is_space_byte(s[a])
        invariant
            a <= n == s@.len(),
            forall|i: int| 0 <= i < a ==> is_space(#[trigger] s@[i]),
        decreases n - a,
    {
        a += 1;
    }
    let mut b: usize = n;
    while b > a && is_space_byte(s[b - 1])
        invariant
            a <= b <= n == s@.len(),
            forall|i: int| b <= i < n ==> is_space(#[trigger] s@[i]),
        decreases b,
    {
        b -= 1;
    }
    proof {
        lemma_trim_range(s@, a as int, b as int);
    }
    let ghost t = s@.subrange(a as int, b as int);
    assert(t.len() >= 2 ==> t[0] == s@[a as int] && t[1] == s@[a + 1]);
    if b - a >= 2 && s[a] == 0x30 && (s[a + 1] == 0x78 || s[a + 1] == 0x58) {
        assert(t.subrange(2, t.len() as int) =~= s@.subrange(a + 2, b as int));
        return parse_radix(s, a + 2, b, 16);
    }
    let dec = parse_radix(s, a, b, 10);
    if dec.is_some() {
        return dec;
    }
    let mut i = a;
    while i < b
        invariant
            a <= i <= b <= n == s@.len(),
            t == s@.subrange(a as int, b as int),
            forall|k: int| 0 <= k < i - a ==> (#[trigger] digit_value(t[k], 16)) is Some,
            radix_parse(t, 10) is None,
            s@ == token.spec_bytes(),
            parse_addr_spec(s@) == (if all_hex(t) { radix_parse(t, 16) } else { None }),
        decreases b - i,
    {
        if digit_of(s[i], 16).is_none() {
            assert(t[i - a] == s@[i as int]);
            assert(digit_value(t[i - a], 16) is None);
            assert(!all_hex(t));
            assert(radix_parse(t, 10) is None);
            return None;
        }
        i += 1;
    }
    parse_radix(s, a, b, 16)
}

/// What `parse_watch_kind` reads: `r`, `w`, and `rw` or `wr`.
pub open spec fn watch_kind_spec(b: Seq<u8>) -> Option<WatchKind> {
    if b == seq![0x72u8] {
        Some(WatchKind::Read)
    } else if b == seq![0x77u8] {
        Some(WatchKind::Write)
    } else if b == seq![0x72u8, 0x77u8] || b == seq![0x77u8, 0x72u8] {
        Some(WatchKind::ReadWrite)
    } else {
        None
    }
}

pub fn parse_watch_kind(token: &str) -> (r: Option<WatchKind>)
    ensures
        r == watch_kind_spec(token.spec_bytes()),
{
    let b = token.as_bytes();
    if b.len() == 1 && b[0] == 0x72 {
        assert(b@ =~= seq![0x72u8]);
        Some(WatchKind::Read)
    } else if b.len() == 1 && b[0] == 0x77 {
        assert(b@ =~= seq![0x77u8]);
        Some(WatchKind::Write)
    } else if b.len() == 2 && ((b[0] == 0x72 && b[1] == 0x77) || (b[0] == 0x77 && b[1] == 0x72)) {
        assert(b@ =~= seq![0x72u8, 0x77u8] || b@ =~= seq![0x77u8, 0x72u8]);
        Some(WatchKind::ReadWrite)
    } else {
        proof {
            if b@.len() == 1 {
                assert(b@ != seq![0x72u8, 0x77u8] && b@ != seq![0x77u8, 0x72u8]);
                assert(seq![0x72u8][0] == 0x72u8);
                assert(seq![0x77u8][0] == 0x77u8);
            } else if b@.len() == 2 {
                assert(seq![0x72u8, 0x77u8][0] == 0x72u8 && seq![0x72u8, 0x77u8][1] == 0x77u8);
                assert(seq![0x77u8, 0x72u8][0] == 0x77u8 && seq![0x77u8, 0x72u8][1] == 0x72u8);
            }
        }
        None
    }
}

/// The kind of a watchpoint set twice at one address: the same kind, or
/// both kinds when they differ.
pub open spec fn merge_spec(existing: WatchKind, new_kind: WatchKind) -> WatchKind {
    if existing == new_kind { existing } else { WatchKind::ReadWrite }
}

pub fn merge_watch_kind(existing: WatchKind, new_kind: WatchKind) -> (r: WatchKind)
    ensures
        r == merge_spec(existing, new_kind),
{
    if existing == new_kind {
        existing
    } else {
        WatchKind::ReadWrite
    }
}

/// The name the debugger prints for a watchpoint kind.
pub fn watch_kind_label(kind: WatchKind) -> (r: &'static str)
    ensures
        r@ == match kind {
            WatchKind::Read => "r"@,
            WatchKind::Write => "w"@,
            WatchKind::ReadWrite => "rw"@,
        },
{
    match kind {
        WatchKind::Read => "r",
        WatchKind::Write => "w",
        WatchKind::ReadWrite => "rw",
    }
}

/// The name the debugger prints for an access.
pub fn watch_access_label(access: WatchAccess) -> (r: &'static str)
    ensures
        r@ == match access {
            WatchAccess::Read => "read"@,
            WatchAccess::Write => "write"@,
        },
{
    match access {
        WatchAccess::Read => "read",
        WatchAccess::Write => "write",
    }
}

/// `i` is the first watchpoint of `list` at `addr`.
pub open spec fn first_at(list: Seq<Watchpoint>, addr: u32, i: int) -> bool {
    &&& 0 <= i < list.len()
    &&& list[i].addr == addr
    &&& forall|j: int| 0 <= j < i ==> (#[trigger] list[j]).addr != addr
}

/// Adds a watchpoint; one already at `addr` has its kind merged instead.
/// Returns the kind now watched at `addr`.
pub fn add_watchpoint(list: &mut Vec<Watchpoint>, addr: u32, kind: WatchKind) -> (r: WatchKind)
    ensures
        forall|i: int| #[trigger] first_at(old(list)@, addr, i) ==> {
            &&& r == merge_spec(old(list)@[i].kind, kind)
            &&& final(list)@ == old(list)@.update(i, Watchpoint { addr, kind: r })
        },
        (forall|i: int| 0 <= i < old(list)@.len() ==> (#[trigger] old(list)@[i]).addr != addr) ==> {
            &&& r == kind
            &&& final(list)@ == old(list)@.push(Watchpoint { addr, kind })
        },
{
    let mut i: usize = 0;
    while i < list.len()
        invariant
            i <= list@.len(),
            list@ == old(list)@,
            forall|j: int| 0 <= j < i ==> (#[trigger] list@[j]).addr != addr,
        decreases list@.len() - i,
    {
        if list[i].addr == addr {
            let merged = merge_watch_kind(list[i].kind, kind);
            list.set(i, Watchpoint { addr, kind: merged });
            proof {
                assert forall|k: int| #[trigger] first_at(old(list)@, addr, k) implies k == i by {
                    if k < i {
                    } else if k > i {
                        assert(old(list)@[i as int].addr == addr);
                    }
                }
            }
            return merged;
        }
        i += 1;
    }
    list.push(Watchpoint { addr, kind });
    kind
}

/// Removes every watchpoint at `addr`; returns whether there was one.
pub fn remove_watchpoint(list: &mut Vec<Watchpoint>, addr: u32) -> (r: bool)
    ensures
        final(list)@ == old(list)@.filter(|w: Watchpoint| w.addr != addr),
        r == exists|i: int| 0 <= i < old(list)@.len() && (#[trigger] old(list)@[i]).addr == addr,
{
    let mut kept: Vec<Watchpoint> = Vec::new();
    let mut found = false;
    proof {
        reveal(Seq::filter);
        assert(list@.take(0).filter(|w: Watchpoint| w.addr != addr) =~= Seq::<Watchpoint>::empty());
    }
    let mut i: usize = 0;
    while i < list.len()
        invariant
            i <= list@.len(),
            list@ == old(list)@,
            kept@ == list@.take(i as int).filter(|w: Watchpoint| w.addr != addr),
            found == exists|j: int| 0 <= j < i && (#[trigger] list@[j]).addr == addr,
        decreases list@.len() - i,
    {
        let w = list[i];
        proof {
            reveal(Seq::filter);
            assert(list@.take(i + 1).drop_last() =~= list@.take(i as int));
            assert(list@.take(i + 1).last() == w);
        }
        if w.addr != addr {
            kept.push(w);
        } else {
            found = true;
        }
        i += 1;
    }
    assert(list@.take(i as int) =~= list@);
    *list = kept;
    found
}

/// A register named in a debugger command.
#[derive(Clone, Copy, Debug, PartialEq, Eq, Structural)]
pub enum RegName {
    Pc,
    Gpr(u32),
    Cr(usize),
}

pub open spec fn lower(b: u8) -> u8 {
    if 0x41 <= b <= 0x5A { (b + 0x20) as u8 } else { b }
}

pub open spec fn lowered(s: Seq<u8>) -> Seq<u8> {
    Seq::new(s.len(), |i: int| lower(s[i]))
}

/// The register a debugger token names (letters in any case): `pc`, the
/// aliases `sp`, `bp`, `ra` (r31, r30, r29), the control register names,
/// `r0` to `r31` and `cr0` to `cr11`.
pub open spec fn reg_name_spec(token: Seq<u8>) -> Option<RegName> {
    let t = lowered(token);
    if t == seq![0x70u8, 0x63] { Some(RegName::Pc) }
    else if t == seq![0x73u8, 0x70] { Some(RegName::Gpr(31)) }
    else if t == seq![0x62u8, 0x70] { Some(RegName::Gpr(30)) }
    else if t == seq![0x72u8, 0x61] { Some(RegName::Gpr(29)) }
    else if t == seq![0x70u8, 0x73, 0x72] { Some(RegName::Cr(0)) }
    else if t == seq![0x70u8, 0x69, 0x64] { Some(RegName::Cr(1)) }
    else if t == seq![0x69u8, 0x73, 0x72] { Some(RegName::Cr(2)) }
    else if t == seq![0x69u8, 0x6D, 0x72] { Some(RegName::Cr(3)) }
    else if t == seq![0x65u8, 0x70, 0x63] { Some(RegName::Cr(4)) }
    else if t == seq![0x66u8, 0x6C, 0x67] { Some(RegName::Cr(5)) }
    else if t == seq![0x63u8, 0x64, 0x76] { Some(RegName::Cr(6)) }
    else if t == seq![0x74u8, 0x6C, 0x62] { Some(RegName::Cr(7)) }
    else if t == seq![0x6Bu8, 0x73, 0x70] { Some(RegName::Cr(8)) }
    else if t == seq![0x63u8, 0x69, 0x64] { Some(RegName::Cr(9)) }
    else if t == seq![0x6Du8, 0x62, 0x69] { Some(RegName::Cr(10)) }
    else if t == seq![0x6Du8, 0x62, 0x6F] { Some(RegName::Cr(11)) }
    else if t.len() >= 1 && t[0] == 0x72 {
        match radix_parse(t.drop_first(), 10) {
            Some(n) => if n < 32 { Some(RegName::Gpr(n)) } else { None },
            None => None,
        }
    } else if t.len() >= 2 && t[0] == 0x63 && t[1] == 0x72 {
        match radix_parse(t.subrange(2, t.len() as int), 10) {
            Some(n) => if n < 12 { Some(RegName::Cr(n as usize)) } else { None },
            None => None,
        }
    } else {
        None
    }
}

fn lowered_vec(s: &[u8]) -> (r: Vec<u8>)
    ensures
        r@ == lowered(s@),
{
    let mut r: Vec<u8> = Vec::new();
    let mut i: usize = 0;
    while i < s.len()
        invariant
            i <= s@.len(),
            r@ == lowered(s@).take(i as int),
        decreases s@.len() - i,
    {
        let b = s[i];
        r.push(if 0x41 <= b && b <= 0x5A { b + 0x20 } else { b });
        i += 1;
        assert(r@ =~= lowered(s@).take(i as int));
    }
    assert(lowered(s@).take(i as int) =~= lowered(s@));
    r
}

fn same_bytes(a: &Vec<u8>, b: &[u8]) -> (r: bool)
    ensures
        r == (a@ == b@),
{
    if a.len() != b.len() {
        return false;
    }
    let mut i: usize = 0;
    while i < a.len()
        invariant
            i <= a@.len() == b@.len(),
            forall|j: int| 0 <= j < i ==> a@[j] == b@[j],
        decreases a@.len() - i,
    {
        if a[i] != b[i] {
            return false;
        }
        i += 1;
    }
    assert(a@ =~= b@);
    true
}

/// The register that `token` names (see `reg_name_spec`).
pub fn reg_by_name(token: &str) -> (r: Option<RegName>)
    ensures
        r == reg_name_spec(token.spec_bytes()),
{
    let t = lowered_vec(token.as_bytes());
    if same_bytes(&t, &[0x70u8, 0x63]) {
        assert((&[0x70u8, 0x63])@ =~= seq![0x70u8, 0x63]);
        return Some(RegName::Pc);
    }
    assert(t@ != seq![0x70u8, 0x63]);
    if same_bytes(&t, &[0x73u8, 0x70]) {
        assert((&[0x73u8, 0x70])@ =~= seq![0x73u8, 0x70]);
        return Some(RegName::Gpr(31));
    }
    assert(t@ != seq![0x73u8, 0x70]);
    if same_bytes(&t, &[0x62u8, 0x70]) {
        assert((&[0x62u8, 0x70])@ =~= seq![0x62u8, 0x70]);
        return Some(RegName::Gpr(30));
    }
    assert(t@ != seq![0x62u8, 0x70]);
    if same_bytes(&t, &[0x72u8, 0x61]) {
        assert((&[0x72u8, 0x61])@ =~= seq![0x72u8, 0x61]);
        return Some(RegName::Gpr(29));
    }
    assert(t@ != seq![0x72u8, 0x61]);
    if same_bytes(&t, &[0x70u8, 0x73, 0x72]) {
        assert((&[0x70u8, 0x73, 0x72])@ =~= seq![0x70u8, 0x73, 0x72]);
        return Some(RegName::Cr(0));
    }
    assert(t@ != seq![0x70u8, 0x73, 0x72]);
    if same_bytes(&t, &[0x70u8, 0x69, 0x64]) {
        assert((&[0x70u8, 0x69, 0x64])@ =~= seq![0x70u8, 0x69, 0x64]);
        return Some(RegName::Cr(1));
    }
    assert(t@ != seq![0x70u8, 0x69, 0x64]);
    if same_bytes(&t, &[0x69u8, 0x73, 0x72]) {
        assert((&[0x69u8, 0x73, 0x72])@ =~= seq![0x69u8, 0x73, 0x72]);
        return Some(RegName::Cr(2));
    }
    assert(t@ != seq![0x69u8, 0x73, 0x72]);
    if same_bytes(&t, &[0x69u8, 0x6D, 0x72]) {
        assert((&[0x69u8, 0x6D, 0x72])@ =~= seq![0x69u8, 0x6D, 0x72]);
        return Some(RegName::Cr(3));
    }
    assert(t@ != seq![0x69u8, 0x6D, 0x72]);
    if same_bytes(&t, &[0x65u8, 0x70, 0x63]) {
        assert((&[0x65u8, 0x70, 0x63])@ =~= seq![0x65u8, 0x70, 0x63]);
        return Some(RegName::Cr(4));
    }
    assert(t@ != seq![0x65u8, 0x70, 0x63]);
    if same_bytes(&t, &[0x66u8, 0x6C, 0x67]) {
        assert((&[0x66u8, 0x6C, 0x67])@ =~= seq![0x66u8, 0x6C, 0x67]);
        return Some(RegName::Cr(5));
    }
    assert(t@ != seq![0x66u8, 0x6C, 0x67]);
    if same_bytes(&t, &[0x63u8, 0x64, 0x76]) {
        assert((&[0x63u8, 0x64, 0x76])@ =~= seq![0x63u8, 0x64, 0x76]);
        return Some(RegName::Cr(6));
    }
    assert(t@ != seq![0x63u8, 0x64, 0x76]);
    if same_bytes(&t, &[0x74u8, 0x6C, 0x62]) {
        assert((&[0x74u8, 0x6C, 0x62])@ =~= seq![0x74u8, 0x6C, 0x62]);
        return Some(RegName::Cr(7));
    }
    assert(t@ != seq![0x74u8, 0x6C, 0x62]);
    if same_bytes(&t, &[0x6Bu8, 0x73, 0x70]) {
        assert((&[0x6Bu8, 0x73, 0x70])@ =~= seq![0x6Bu8, 0x73, 0x70]);
        return Some(RegName::Cr(8));
    }
    assert(t@ != seq![0x6Bu8, 0x73, 0x70]);
    if same_bytes(&t, &[0x63u8, 0x69, 0x64]) {
        assert((&[0x63u8, 0x69, 0x64])@ =~= seq![0x63u8, 0x69, 0x64]);
        return Some(RegName::Cr(9));
    }
    assert(t@ != seq![0x63u8, 0x69, 0x64]);
    if same_bytes(&t, &[0x6Du8, 0x62, 0x69]) {
        assert((&[0x6Du8, 0x62, 0x69])@ =~= seq![0x6Du8, 0x62, 0x69]);
        return Some(RegName::Cr(10));
    }
    assert(t@ != seq![0x6Du8, 0x62, 0x69]);
    if same_bytes(&t, &[0x6Du8, 0x62, 0x6F]) {
        assert((&[0x6Du8, 0x62, 0x6F])@ =~= seq![0x6Du8, 0x62, 0x6F]);
        return Some(RegName::Cr(11));
    }
    assert(t@ != seq![0x6Du8, 0x62, 0x6F]);
    let n = t.len();
    if n >= 1 && t[0] == 0x72 {
        assert(t@.drop_first() =~= t@.subrange(1, n as int));
        if let Some(v) = parse_radix(t.as_slice(), 1, n, 10) {
            if v < 32 {
                return Some(RegName::Gpr(v));
            }
        }
        assert(!(n >= 2 && t@[0] == 0x63));
        return None;
    }
    if n >= 2 && t[0] == 0x63 && t[1] == 0x72 {
        if let Some(v) = parse_radix(t.as_slice(), 2, n, 10) {
            if v < 12 {
                return Some(RegName::Cr(v as usize));
            }
        }
    }
    None
}

/// The uppercase hexadecimal digit of `d` (below 16).
pub open spec fn hex_char(d: u32) -> char {
    if d == 0 { '0' } else if d == 1 { '1' } else if d == 2 { '2' } else if d == 3 { '3' }
    else if d == 4 { '4' } else if d == 5 { '5' } else if d == 6 { '6' } else if d == 7 { '7' }
    else if d == 8 { '8' } else if d == 9 { '9' } else if d == 10 { 'A' } else if d == 11 { 'B' }
    else if d == 12 { 'C' } else if d == 13 { 'D' } else if d == 14 { 'E' } else { 'F' }
}

/// `v` as eight uppercase hexadecimal digits, most significant first.
pub open spec fn hex8(v: u32) -> Seq<char> {
    Seq::new(8, |i: int| hex_char((v >> ((28 - 4 * i) as u32)) & 0xF))
}

/// The one-character text of hexadecimal digit `d` (below 16).
fn hex_digit(d: u32) -> (r: &'static str)
    requires
        d < 16,
    ensures
        r@ == seq![hex_char(d)],
{
    if d == 0 {
        proof {
            reveal_strlit("0");
        }
        "0"
    } else if d == 1 {
        proof {
            reveal_strlit("1");
        }
        "1"
    } else if d == 2 {
        proof {
            reveal_strlit("2");
        }
        "2"
    } else if d == 3 {
        proof {
            reveal_strlit("3");
        }
        "3"
    } else if d == 4 {
        proof {
            reveal_strlit("4");
        }
        "4"
    } else if d == 5 {
        proof {
            reveal_strlit("5");
        }
        "5"
    } else if d == 6 {
        proof {
            reveal_strlit("6");
        }
        "6"
    } else if d == 7 {
        proof {
            reveal_strlit("7");
        }
        "7"
    } else if d == 8 {
        proof {
            reveal_strlit("8");
        }
        "8"
    } else if d == 9 {
        proof {
            reveal_strlit("9");
        }
        "9"
    } else if d == 10 {
        proof {
            reveal_strlit("A");
        }
        "A"
    } else if d == 11 {
        proof {
            reveal_strlit("B");
        }
        "B"
    } else if d == 12 {
        proof {
            reveal_strlit("C");
        }
        "C"
    } else if d == 13 {
        proof {
            reveal_strlit("D");
        }
        "D"
    } else if d == 14 {
        proof {
            reveal_strlit("E");
        }
        "E"
    } else {
        proof {
            reveal_strlit("F");
        }
        "F"
    }
}

/// `v` as eight uppercase hexadecimal digits.
pub fn hex_word(v: u32) -> (r: String)
    ensures
        r@ == hex8(v),
{
    let mut out = String::new();
    let mut i: u32 = 0;
    while i < 8
        invariant
            i <= 8,
            out@ == hex8(v).take(i as int),
        decreases 8 - i,
    {
        let sh: u32 = 28 - 4 * i;
        let d = (v >> sh) & 0xF;
        assert(d < 16) by (bit_vector)
            requires d == (v >> sh) & 0xF;
        out.append(hex_digit(d));
        i += 1;
        assert(out@ =~= hex8(v).take(i as int));
    }
    assert(hex8(v).take(8) =~= hex8(v));
    out
}

/// The addresses as eight-digit hexadecimal numbers separated by `, `.
pub open spec fn addr_list_spec(addrs: Seq<u32>) -> Seq<char>
    decreases addrs.len(),
{
    if addrs.len() == 0 {
        Seq::empty()
    } else if addrs.len() == 1 {
        hex8(addrs[0])
    } else {
        addr_list_spec(addrs.drop_last()) + ", "@ + hex8(addrs.last())
    }
}

pub fn format_addr_list(addrs: &Vec<u32>) -> (r: String)
    ensures
        r@ == addr_list_spec(addrs@),
{
    let mut out = String::new();
    let mut i: usize = 0;
    while i < addrs.len()
        invariant
            i <= addrs@.len(),
            out@ == addr_list_spec(addrs@.take(i as int)),
        decreases addrs@.len() - i,
    {
        assert(addrs@.take(i + 1).drop_last() =~= addrs@.take(i as int));
        if i > 0 {
            out.append(", ");
        }
        let h = hex_word(addrs[i]);
        out.append(h.as_str());
        i += 1;
        proof {
            if i == 1 {
                assert(addrs@.take(0) =~= Seq::<u32>::empty());
            }
        }
    }
    assert(addrs@.take(i as int) =~= addrs@);
    out
}

/// Every address that some label named `name` (as bytes) stands for, in
/// order.
pub open spec fn label_addrs(labels: Seq<(Vec<u8>, u32)>, name: Seq<u8>) -> Seq<u32>
    decreases labels.len(),
{
    if labels.len() == 0 {
        Seq::empty()
    } else if labels.last().0@ == name {
        label_addrs(labels.drop_last(), name).push(labels.last().1)
    } else {
        label_addrs(labels.drop_last(), name)
    }
}

/// The addresses that `target` stands for: the address it writes, else
/// those of the labels of that name; an error naming it when there are
/// none.
pub fn resolve_label_or_addr(target: &str, labels: &Vec<(Vec<u8>, u32)>) -> (r: Result<Vec<u32>, String>)
    ensures
        match parse_addr_spec(target.spec_bytes()) {
            Some(a) => r matches Ok(v) && v@ == seq![a],
            None => {
                let found = label_addrs(labels@, target.spec_bytes());
                if found.len() > 0 {
                    r matches Ok(v) && v@ == found
                } else {
                    r matches Err(e) && e@ == "Unknown label "@ + target@
                }
            },
        },
{
    if let Some(a) = parse_addr(target) {
        let v = vec![a];
        assert(v@ =~= seq![a]);
        return Ok(v);
    }
    let name = target.as_bytes();
    let mut found: Vec<u32> = Vec::new();
    let mut i: usize = 0;
    while i < labels.len()
        invariant
            i <= labels@.len(),
            name@ == target.spec_bytes(),
            found@ == label_addrs(labels@.take(i as int), name@),
        decreases labels@.len() - i,
    {
        assert(labels@.take(i + 1).drop_last() =~= labels@.take(i as int));
        if same_bytes(&labels[i].0, name) {
            found.push(labels[i].1);
        }
        i += 1;
    }
    assert(labels@.take(i as int) =~= labels@);
    if found.len() > 0 {
        Ok(found)
    } else {
        let msg = String::from_str("Unknown label ");
        Err(msg.concat(target))
    }
}

/// The names that label address `a`, in order.
pub open spec fn names_at(labels: Seq<(Vec<u8>, u32)>, a: u32) -> Seq<Seq<u8>>
    decreases labels.len(),
{
    if labels.len() == 0 {
        Seq::empty()
    } else if labels.last().1 == a {
        names_at(labels.drop_last(), a).push(labels.last().0@)
    } else {
        names_at(labels.drop_last(), a)
    }
}

proof fn lemma_names_at_absent(labels: Seq<(Vec<u8>, u32)>, a: u32)
    requires
        forall|k: int| 0 <= k < labels.len() ==> (#[trigger] labels[k]).1 != a,
    ensures
        names_at(labels, a) == Seq::<Seq<u8>>::empty(),
    decreases labels.len(),
{
    if labels.len() > 0 {
        let t = labels.drop_last();
        assert forall|k: int| 0 <= k < t.len() implies (#[trigger] t[k]).1 != a by {
            assert(t[k] == labels[k]);
        }
        lemma_names_at_absent(t, a);
    }
}

/// Every label's address has a group.
pub open spec fn every_label_grouped(groups: Seq<(u32, Vec<Vec<u8>>)>, labels: Seq<(Vec<u8>, u32)>) -> bool {
    forall|k: int| 0 <= k < labels.len() ==> #[trigger] has_group(groups, labels[k].1)
}

/// Some group has address `a`.
pub open spec fn has_group(groups: Seq<(u32, Vec<Vec<u8>>)>, a: u32) -> bool {
    exists|i: int| 0 <= i < groups.len() && (#[trigger] groups[i]).0 == a
}

/// The labels grouped by address: one entry per labelled address, with
/// its names in order.
pub fn build_labels_by_addr(labels: &Vec<(Vec<u8>, u32)>) -> (r: Vec<(u32, Vec<Vec<u8>>)>)
    ensures
        forall|i: int, j: int| 0 <= i < j < r@.len() ==> r@[i].0 != r@[j].0,
        forall|i: int| 0 <= i < r@.len() ==> (#[trigger] r@[i]).1@.map_values(|n: Vec<u8>| n@) == names_at(labels@, r@[i].0),
        every_label_grouped(r@, labels@),
{
    let mut groups: Vec<(u32, Vec<Vec<u8>>)> = Vec::new();
    let mut k: usize = 0;
    while k < labels.len()
        invariant
            k <= labels@.len(),
            forall|i: int, j: int| 0 <= i < j < groups@.len() ==> groups@[i].0 != groups@[j].0,
            forall|i: int| 0 <= i < groups@.len() ==> (#[trigger] groups@[i]).1@.map_values(|n: Vec<u8>| n@) == names_at(
                labels@.take(k as int),
                groups@[i].0,
            ),
            forall|m: int| 0 <= m < k ==> #[trigger] has_group(groups@, labels@[m].1),
        decreases labels@.len() - k,
    {
        let a = labels[k].1;
        let name = labels[k].0.clone();
        assert(name@ =~= labels@[k as int].0@);
        let ghost pre = labels@.take(k as int);
        let ghost post = labels@.take(k + 1);
        assert(post.drop_last() =~= pre);
        assert(post.last() == labels@[k as int]);
        let mut i: usize = 0;
        while i < groups.len() && groups[i].0 != a
            invariant
                i <= groups@.len(),
                forall|j: int| 0 <= j < i ==> (#[trigger] groups@[j]).0 != a,
            decreases groups@.len() - i,
        {
            i += 1;
        }
        let ghost g0 = groups@;
        if i < groups.len() {
            groups[i].1.push(name);
            proof {
                assert forall|j: int| 0 <= j < groups@.len() implies (#[trigger] groups@[j]).1@.map_values(|n: Vec<u8>| n@)
                    == names_at(post, groups@[j].0) by {
                    if j == i {
                        assert(groups@[j].1@.map_values(|n: Vec<u8>| n@) =~= g0[j].1@.map_values(|n: Vec<u8>| n@).push(
                            labels@[k as int].0@,
                        ));
                        assert(names_at(post, a) == names_at(pre, a).push(labels@[k as int].0@));
                    } else {
                        assert(groups@[j] == g0[j]);
                        assert(g0[j].0 != a);
                        assert(names_at(post, g0[j].0) == names_at(pre, g0[j].0));
                    }
                }
                assert forall|m: int| 0 <= m < k + 1 implies #[trigger] has_group(groups@, labels@[m].1) by {
                    if m == k {
                        assert(groups@[i as int].0 == labels@[m].1);
                    } else {
                        assert(has_group(g0, labels@[m].1));
                        let j = choose|j: int| 0 <= j < g0.len() && (#[trigger] g0[j]).0 == labels@[m].1;
                        assert(groups@[j].0 == g0[j].0);
                    }
                }
            }
        } else {
            proof {
                assert forall|m: int| 0 <= m < pre.len() implies (#[trigger] pre[m]).1 != a by {
                    assert(has_group(g0, labels@[m].1));
                    let j = choose|j: int| 0 <= j < g0.len() && (#[trigger] g0[j]).0 == labels@[m].1;
                    assert(pre[m] == labels@[m]);
                }
                lemma_names_at_absent(pre, a);
            }
            let mut names: Vec<Vec<u8>> = Vec::new();
            names.push(name);
            groups.push((a, names));
            proof {
                assert forall|j: int| 0 <= j < groups@.len() implies (#[trigger] groups@[j]).1@.map_values(|n: Vec<u8>| n@)
                    == names_at(post, groups@[j].0) by {
                    if j == g0.len() {
                        assert(groups@[j].1@.map_values(|n: Vec<u8>| n@) =~= seq![labels@[k as int].0@]);
                        assert(names_at(post, a) =~= seq![labels@[k as int].0@]);
                    } else {
                        assert(groups@[j] == g0[j]);
                    }
                }
                assert forall|m: int| 0 <= m < k + 1 implies #[trigger] has_group(groups@, labels@[m].1) by {
                    if m == k {
                        assert(groups@[g0.len() as int].0 == labels@[m].1);
                    } else {
                        assert(has_group(g0, labels@[m].1));
                        let j = choose|j: int| 0 <= j < g0.len() && (#[trigger] g0[j]).0 == labels@[m].1;
                        assert(groups@[j].0 == g0[j].0);
                    }
                }
            }
        }
        k += 1;
    }
    assert(labels@.take(k as int) =~= labels@);
    assert(every_label_grouped(groups@, labels@));
    groups
}

} // verus!
